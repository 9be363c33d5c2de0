//! Outbound manager: builds the tagged outbound handlers from the
//! configuration and serves lookups by tag.
use crate::config::{Outbound, OutboundSettings};
use crate::proxy::{OutboundHandler, TcpOutboundKind, UdpOutboundKind};
use vstd::prelude::*;

verus! {

/// The handler one configured outbound yields: both halves of its protocol,
/// or nothing for an unknown protocol or missing settings.
pub open spec fn sp_handler_for(o: Outbound) -> Option<OutboundHandler> {
    if o.protocol@ == "socks"@ {
        match o.settings {
            Some(OutboundSettings::Socks(s)) => Some(
                OutboundHandler {
                    tag: o.tag,
                    tcp_handler: Some(
                        TcpOutboundKind::Socks { address: s.address, port: s.port },
                    ),
                    udp_handler: Some(
                        UdpOutboundKind::Socks { address: s.address, port: s.port },
                    ),
                },
            ),
            _ => None,
        }
    } else if o.protocol@ == "shadowsocks"@ {
        match o.settings {
            Some(OutboundSettings::Shadowsocks(s)) => Some(
                OutboundHandler {
                    tag: o.tag,
                    tcp_handler: Some(
                        TcpOutboundKind::Shadowsocks {
                            address: s.address,
                            port: s.port,
                            method: s.method,
                            password: s.password,
                        },
                    ),
                    udp_handler: Some(
                        UdpOutboundKind::Shadowsocks {
                            address: s.address,
                            port: s.port,
                            method: s.method,
                            password: s.password,
                        },
                    ),
                },
            ),
            _ => None,
        }
    } else if o.protocol@ == "direct"@ {
        Some(
            OutboundHandler {
                tag: o.tag,
                tcp_handler: Some(TcpOutboundKind::Direct),
                udp_handler: Some(UdpOutboundKind::Direct),
            },
        )
    } else {
        None
    }
}

/// The handler table the configuration builds, in declaration order;
/// outbounds that yield nothing are skipped with a warning.
pub open spec fn sp_build_handlers(s: Seq<Outbound>, i: int) -> Seq<(String, OutboundHandler)>
    decreases s.len() - i,
{
    if i < 0 || i >= s.len() {
        Seq::<(String, OutboundHandler)>::empty()
    } else {
        match sp_handler_for(s[i]) {
            None => sp_build_handlers(s, i + 1),
            Some(h) => seq![(s[i].tag, h)] + sp_build_handlers(s, i + 1),
        }
    }
}

/// The first handler under a tag, at or after `i`.
pub open spec fn sp_handler_lookup(
    m: Seq<(String, OutboundHandler)>,
    tag: Seq<char>,
    i: int,
) -> Option<OutboundHandler>
    decreases m.len() - i,
{
    if i < 0 || i >= m.len() {
        None
    } else if m[i].0@ == tag {
        Some(m[i].1)
    } else {
        sp_handler_lookup(m, tag, i + 1)
    }
}

/// Builds one outbound's handler.
fn handler_for(o: &Outbound) -> (r: Option<OutboundHandler>)
    ensures
        r == sp_handler_for(*o),
{
    proof {
        reveal_strlit("socks");
        reveal_strlit("shadowsocks");
        reveal_strlit("direct");
        assert("socks"@ != "shadowsocks"@ && "socks"@ != "direct"@ && "shadowsocks"@
            != "direct"@) by {
            assert("socks"@.len() == 5 && "shadowsocks"@.len() == 11 && "direct"@.len() == 6);
        }
    }
    let p = String::from_str(o.protocol.as_str());
    if p == String::from_str("socks") {
        match &o.settings {
            Some(OutboundSettings::Socks(s)) => Some(
                OutboundHandler {
                    tag: o.tag.clone(),
                    tcp_handler: Some(
                        TcpOutboundKind::Socks { address: s.address.clone(), port: s.port },
                    ),
                    udp_handler: Some(
                        UdpOutboundKind::Socks { address: s.address.clone(), port: s.port },
                    ),
                },
            ),
            _ => None,
        }
    } else if p == String::from_str("shadowsocks") {
        match &o.settings {
            Some(OutboundSettings::Shadowsocks(s)) => Some(
                OutboundHandler {
                    tag: o.tag.clone(),
                    tcp_handler: Some(
                        TcpOutboundKind::Shadowsocks {
                            address: s.address.clone(),
                            port: s.port,
                            method: s.method.clone(),
                            password: s.password.clone(),
                        },
                    ),
                    udp_handler: Some(
                        UdpOutboundKind::Shadowsocks {
                            address: s.address.clone(),
                            port: s.port,
                            method: s.method.clone(),
                            password: s.password.clone(),
                        },
                    ),
                },
            ),
            _ => None,
        }
    } else if p == String::from_str("direct") {
        Some(
            OutboundHandler {
                tag: o.tag.clone(),
                tcp_handler: Some(TcpOutboundKind::Direct),
                udp_handler: Some(UdpOutboundKind::Direct),
            },
        )
    } else {
        None
    }
}

/// The tagged outbound handlers.
pub struct OutboundManager {
    pub handlers: Vec<(String, OutboundHandler)>,
}

impl OutboundManager {
    /// Builds the handler table from the configured outbounds, in
    /// declaration order.
    pub fn new(outbounds: &Vec<Outbound>) -> (r: OutboundManager)
        ensures
            r.handlers@ == sp_build_handlers(outbounds@, 0),
    {
        let mut handlers: Vec<(String, OutboundHandler)> = Vec::new();
        let mut i: usize = 0;
        while i < outbounds.len()
            invariant
                i <= outbounds@.len(),
                sp_build_handlers(outbounds@, 0) =~= handlers@ + sp_build_handlers(
                    outbounds@,
                    i as int,
                ),
            decreases outbounds@.len() - i,
        {
            let ghost prev = handlers@;
            match handler_for(&outbounds[i]) {
                Some(h) => {
                    let tag = outbounds[i].tag.clone();
                    handlers.push((tag, h));
                    proof {
                        assert(handlers@ =~= prev + seq![
                            (outbounds@[i as int].tag, sp_handler_for(outbounds@[i as int])->Some_0),
                        ]);
                        assert(sp_build_handlers(outbounds@, 0) =~= handlers@ + sp_build_handlers(
                            outbounds@,
                            i as int + 1,
                        ));
                    }
                },
                None => {},
            }
            i += 1;
        }
        OutboundManager { handlers }
    }

    /// The handler under a tag, if one was configured.
    pub fn get_handler<'a>(&'a self, tag: &str) -> (r: Option<&'a OutboundHandler>)
        ensures
            match r {
                Some(h) => sp_handler_lookup(self.handlers@, tag@, 0) == Some(*h),
                None => sp_handler_lookup(self.handlers@, tag@, 0) is None,
            },
    {
        let key = String::from_str(tag);
        let mut i: usize = 0;
        while i < self.handlers.len()
            invariant
                i <= self.handlers@.len(),
                key@ == tag@,
                sp_handler_lookup(self.handlers@, tag@, 0) == sp_handler_lookup(
                    self.handlers@,
                    tag@,
                    i as int,
                ),
            decreases self.handlers@.len() - i,
        {
            if self.handlers[i].0 == key {
                return Some(&self.handlers[i].1);
            }
            i += 1;
        }
        None
    }
}

} // verus!
