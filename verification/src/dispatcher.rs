//! Dispatcher decisions: when to sniff, how a sniffed name rewrites the
//! session, and which outbound half carries it.
use crate::addr::{Address, Session};
use crate::outbound::{sp_handler_lookup, OutboundManager};
use crate::proxy::{TcpOutboundKind, UdpOutboundKind};
use crate::router::{first_match, Router};
use vstd::prelude::*;

verus! {

/// Why a session is aborted before its outbound leg.
#[derive(Clone, Debug)]
pub enum DispatchError {
    /// No rule matched the session.
    NoRoute,
    /// The routed tag names no configured outbound.
    NoHandler(String),
    /// The routed outbound has no TCP half.
    NoTcpHandler(String),
    /// The routed outbound has no UDP half.
    NoUdpHandler(String),
}

/// The routing and outbound decisions of the pipeline.
pub struct Dispatcher {
    pub router: Router,
    pub outbound_manager: OutboundManager,
}

impl Dispatcher {
    /// A usable dispatcher: its router is well-formed.
    pub open spec fn wf(&self) -> bool {
        self.router.wf()
    }

    /// A dispatcher over a router and an outbound set.
    pub fn new(router: Router, outbound_manager: OutboundManager) -> (r: Dispatcher)
        requires
            router.wf(),
        ensures
            r.router == router,
            r.outbound_manager == outbound_manager,
            r.wf(),
    {
        Dispatcher { router, outbound_manager }
    }

    /// Whether the accepted stream should be sniffed for an SNI: only TLS
    /// accepts, recognized by the listener port 443.
    pub fn should_sniff(sess: &Session) -> (r: bool)
        ensures
            r == (sess.local_peer.port == 443),
    {
        sess.local_peer.port == 443
    }

    /// Applies a sniffed server name: only the destination changes — the
    /// peer address, the listener address and the transport keep the values
    /// set at accept time; the port carries over from the old destination.
    pub fn apply_sni(sess: &mut Session, name: String)
        ensures
            final(sess).peer_address == old(sess).peer_address,
            final(sess).local_peer == old(sess).local_peer,
            final(sess).network == old(sess).network,
            final(sess).destination == (match crate::parse::spec_parse_ipv4(name@) {
                Some(v) => Address::Ip(
                    crate::addr::SocketAddress {
                        ip: crate::addr::IpAddress::V4(v),
                        port: old(sess).destination.spec_port(),
                    },
                ),
                None => match crate::parse::spec_parse_ipv6(name@) {
                    Some(v) => Address::Ip(
                        crate::addr::SocketAddress {
                            ip: crate::addr::IpAddress::V6(v),
                            port: old(sess).destination.spec_port(),
                        },
                    ),
                    None => Address::Domain(name, old(sess).destination.spec_port()),
                },
            }),
    {
        let port = sess.port();
        sess.destination = Address::from_parts(name, port);
    }

    /// Picks the outbound TCP half for a session: the router's first match
    /// names the tag, the tag names the handler, the handler must carry a
    /// TCP half; each missing step aborts with its own failure.
    pub fn plan_tcp(&self, sess: &Session) -> (r: Result<TcpOutboundKind, DispatchError>)
        requires
            self.wf(),
        ensures
            ({
                let w = first_match(self.router.rules@, *sess, 0);
                if w >= self.router.rules@.len() {
                    r matches Err(e) && e is NoRoute
                } else {
                    let tag = self.router.rules@[w].target@;
                    match sp_handler_lookup(self.outbound_manager.handlers@, tag, 0) {
                        None => r matches Err(e) && (e matches DispatchError::NoHandler(t) && t@
                            == tag),
                        Some(h) => match h.tcp_handler {
                            Some(k) => r == Ok::<TcpOutboundKind, DispatchError>(k),
                            None => r matches Err(e) && (e
                                matches DispatchError::NoTcpHandler(t) && t@ == tag),
                        },
                    }
                }
            }),
    {
        let tag = match self.router.route(sess) {
            Some(t) => t,
            None => {
                return Err(DispatchError::NoRoute);
            },
        };
        let handler = match self.outbound_manager.get_handler(tag.as_str()) {
            Some(h) => h,
            None => {
                return Err(DispatchError::NoHandler(tag));
            },
        };
        match &handler.tcp_handler {
            Some(k) => Ok(k.duplicate()),
            None => Err(DispatchError::NoTcpHandler(tag)),
        }
    }

    /// Picks the outbound UDP half for a session, in the same steps.
    pub fn plan_udp(&self, sess: &Session) -> (r: Result<UdpOutboundKind, DispatchError>)
        requires
            self.wf(),
        ensures
            ({
                let w = first_match(self.router.rules@, *sess, 0);
                if w >= self.router.rules@.len() {
                    r matches Err(e) && e is NoRoute
                } else {
                    let tag = self.router.rules@[w].target@;
                    match sp_handler_lookup(self.outbound_manager.handlers@, tag, 0) {
                        None => r matches Err(e) && (e matches DispatchError::NoHandler(t) && t@
                            == tag),
                        Some(h) => match h.udp_handler {
                            Some(k) => r == Ok::<UdpOutboundKind, DispatchError>(k),
                            None => r matches Err(e) && (e
                                matches DispatchError::NoUdpHandler(t) && t@ == tag),
                        },
                    }
                }
            }),
    {
        let tag = match self.router.route(sess) {
            Some(t) => t,
            None => {
                return Err(DispatchError::NoRoute);
            },
        };
        let handler = match self.outbound_manager.get_handler(tag.as_str()) {
            Some(h) => h,
            None => {
                return Err(DispatchError::NoHandler(tag));
            },
        };
        match &handler.udp_handler {
            Some(k) => Ok(k.duplicate()),
            None => Err(DispatchError::NoUdpHandler(tag)),
        }
    }
}

} // verus!
