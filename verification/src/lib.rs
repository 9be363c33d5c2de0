//! A multi-protocol forwarding proxy, its logic stated in contracts: the
//! address and session model, the TLS ClientHello sniffer, the rule router,
//! the SOCKS5 codec, the Shadowsocks AEAD stream, the DNS resolver, the UDP
//! association table and the TUN TCP NAT, with the dispatcher's decisions
//! tying them together. The surrounding program owns the sockets and tasks
//! and drives these types with the bytes and events it collects.
pub mod addr;
pub mod parse;
pub mod sniffer;
pub mod socks;
pub mod cipher;
pub mod shadowsocks;
pub mod config;
pub mod router;
pub mod dns;
pub mod udp_assoc;
pub mod tun;
pub mod proxy;
pub mod outbound;
pub mod inbound;
pub mod direct;
pub mod dispatcher;
pub mod packet;
pub mod text;
pub mod wire;

use vstd::prelude::*;

verus! {

/// Maximum plaintext length of one Shadowsocks AEAD frame.
pub const MAX_PAYLOAD_LEN: usize = 0x3fff;

} // verus!
