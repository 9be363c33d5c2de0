//! Shared pipeline types: handler capability records, outbound connection
//! targets, and the dispatch error taxonomy.
use crate::addr::Address;
use vstd::prelude::*;

verus! {

/// Failures of the outbound leg.
#[derive(Clone, Debug)]
pub enum Error {
    /// Opening the upstream transport failed.
    ConnectError(String, u16),
}

impl Error {
    /// Renders the failure for a log line.
    pub fn to_display_string(&self) -> (r: String)
        ensures
            self matches Error::ConnectError(host, port) ==> r@ == "connect to "@ + host@ + seq![
                ':',
            ] + crate::text::dec_str(port as int) + " failed"@,
    {
        proof {
            reveal_strlit(":");
        }
        match self {
            Error::ConnectError(host, port) => {
                let r = String::from_str("connect to ").concat(host.as_str()).concat(
                    ":",
                ).concat(crate::text::u16_dec_string(*port).as_str()).concat(" failed");
                proof {
                    assert(r@ =~= "connect to "@ + host@ + seq![':'] + crate::text::dec_str(
                        *port as int,
                    ) + " failed"@);
                }
                r
            },
        }
    }
}

/// Where an outbound protocol connects.
#[derive(Clone, Debug)]
pub enum OutboundConnect {
    /// Through a proxy server at a host and port.
    Proxy(String, u16),
    /// Straight to the destination.
    Direct,
    /// Nowhere; the session is dropped.
    Drop,
}

/// The TCP half of an outbound: which protocol carries the stream.
#[derive(Clone, Debug)]
pub enum TcpOutboundKind {
    /// Connect straight to the destination.
    Direct,
    /// Tunnel through an upstream SOCKS5 server.
    Socks { address: String, port: u16 },
    /// Tunnel through a Shadowsocks server.
    Shadowsocks { address: String, port: u16, method: String, password: String },
}

impl TcpOutboundKind {
    /// A field-for-field copy.
    pub fn duplicate(&self) -> (r: TcpOutboundKind)
        ensures
            r == *self,
    {
        match self {
            TcpOutboundKind::Direct => TcpOutboundKind::Direct,
            TcpOutboundKind::Socks { address, port } => TcpOutboundKind::Socks {
                address: address.clone(),
                port: *port,
            },
            TcpOutboundKind::Shadowsocks { address, port, method, password } => {
                TcpOutboundKind::Shadowsocks {
                    address: address.clone(),
                    port: *port,
                    method: method.clone(),
                    password: password.clone(),
                }
            },
        }
    }
}

/// The UDP half of an outbound.
#[derive(Clone, Debug)]
pub enum UdpOutboundKind {
    /// A plain socket to the destination.
    Direct,
    /// Relay through an upstream SOCKS5 server.
    Socks { address: String, port: u16 },
    /// Relay through a Shadowsocks server.
    Shadowsocks { address: String, port: u16, method: String, password: String },
}

impl UdpOutboundKind {
    /// A field-for-field copy.
    pub fn duplicate(&self) -> (r: UdpOutboundKind)
        ensures
            r == *self,
    {
        match self {
            UdpOutboundKind::Direct => UdpOutboundKind::Direct,
            UdpOutboundKind::Socks { address, port } => UdpOutboundKind::Socks {
                address: address.clone(),
                port: *port,
            },
            UdpOutboundKind::Shadowsocks { address, port, method, password } => {
                UdpOutboundKind::Shadowsocks {
                    address: address.clone(),
                    port: *port,
                    method: method.clone(),
                    password: password.clone(),
                }
            },
        }
    }
}

/// A configured outbound: its tag and its protocol halves.
#[derive(Clone, Debug)]
pub struct OutboundHandler {
    pub tag: String,
    pub tcp_handler: Option<TcpOutboundKind>,
    pub udp_handler: Option<UdpOutboundKind>,
}

impl OutboundHandler {
    /// A handler from its parts.
    pub fn new(tag: String, tcp: Option<TcpOutboundKind>, udp: Option<UdpOutboundKind>) -> (r:
        OutboundHandler)
        ensures
            r.tag == tag,
            r.tcp_handler == tcp,
            r.udp_handler == udp,
    {
        OutboundHandler { tag, tcp_handler: tcp, udp_handler: udp }
    }
}

/// The TCP half of an inbound: which protocol accepts the stream.
#[derive(Clone, Copy, PartialEq, Eq, Structural, Debug)]
pub enum TcpInboundKind {
    Socks,
}

/// The UDP half of an inbound.
#[derive(Clone, Copy, PartialEq, Eq, Structural, Debug)]
pub enum UdpInboundKind {
    Socks,
}

/// A configured inbound: its tag and its protocol halves; at least one half
/// is present.
#[derive(Clone, Debug)]
pub struct InboundHandler {
    pub tag: String,
    pub tcp_handler: Option<TcpInboundKind>,
    pub udp_handler: Option<UdpInboundKind>,
}

impl InboundHandler {
    /// A handler from its parts.
    pub fn new(tag: String, tcp: Option<TcpInboundKind>, udp: Option<UdpInboundKind>) -> (r:
        InboundHandler)
        ensures
            r.tag == tag,
            r.tcp_handler == tcp,
            r.udp_handler == udp,
    {
        InboundHandler { tag, tcp_handler: tcp, udp_handler: udp }
    }

    /// Whether the inbound accepts TCP.
    pub fn has_tcp(&self) -> (r: bool)
        ensures
            r == (self.tcp_handler is Some),
    {
        self.tcp_handler.is_some()
    }

    /// Whether the inbound accepts UDP.
    pub fn has_udp(&self) -> (r: bool)
        ensures
            r == (self.udp_handler is Some),
    {
        self.udp_handler.is_some()
    }
}

} // verus!
