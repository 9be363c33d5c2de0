//! Inbound manager: builds the tagged inbound handlers from the
//! configuration.
use crate::config::Inbound;
use crate::proxy::{InboundHandler, TcpInboundKind, UdpInboundKind};
use vstd::prelude::*;

verus! {

/// The handler one configured inbound yields: the SOCKS5 protocol serves
/// both transports; an unknown protocol yields nothing.
pub open spec fn sp_inbound_handler_for(o: Inbound) -> Option<InboundHandler> {
    if o.protocol@ == "socks"@ {
        Some(
            InboundHandler {
                tag: o.tag,
                tcp_handler: Some(TcpInboundKind::Socks),
                udp_handler: Some(UdpInboundKind::Socks),
            },
        )
    } else {
        None
    }
}

/// The handler table the configuration builds, in declaration order.
pub open spec fn sp_build_inbound(s: Seq<Inbound>, i: int) -> Seq<(String, InboundHandler)>
    decreases s.len() - i,
{
    if i < 0 || i >= s.len() {
        Seq::<(String, InboundHandler)>::empty()
    } else {
        match sp_inbound_handler_for(s[i]) {
            None => sp_build_inbound(s, i + 1),
            Some(h) => seq![(s[i].tag, h)] + sp_build_inbound(s, i + 1),
        }
    }
}

/// The tagged inbound handlers beside the raw configuration they came from.
pub struct InboundManager {
    pub handlers: Vec<(String, InboundHandler)>,
    pub configs: Vec<Inbound>,
}

impl InboundManager {
    /// Builds the handler table from the configured inbounds; unknown
    /// protocols are skipped with a log line.
    pub fn new(config: Vec<Inbound>) -> (r: InboundManager)
        ensures
            r.handlers@ == sp_build_inbound(config@, 0),
            r.configs == config,
    {
        proof {
            reveal_strlit("socks");
        }
        let mut handlers: Vec<(String, InboundHandler)> = Vec::new();
        let mut i: usize = 0;
        while i < config.len()
            invariant
                i <= config@.len(),
                sp_build_inbound(config@, 0) =~= handlers@ + sp_build_inbound(config@, i as int),
            decreases config@.len() - i,
        {
            let ghost prev = handlers@;
            let p = String::from_str(config[i].protocol.as_str());
            if p == String::from_str("socks") {
                let tag = config[i].tag.clone();
                let h = InboundHandler {
                    tag: config[i].tag.clone(),
                    tcp_handler: Some(TcpInboundKind::Socks),
                    udp_handler: Some(UdpInboundKind::Socks),
                };
                handlers.push((tag, h));
                proof {
                    assert(handlers@ =~= prev + seq![
                        (config@[i as int].tag, sp_inbound_handler_for(config@[i as int])->Some_0),
                    ]);
                    assert(sp_build_inbound(config@, 0) =~= handlers@ + sp_build_inbound(
                        config@,
                        i as int + 1,
                    ));
                }
            }
            i += 1;
        }
        InboundManager { handlers, configs: config }
    }
}

} // verus!
