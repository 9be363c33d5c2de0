//! Direct outbound: connects straight to the session's destination.
use vstd::prelude::*;

verus! {

/// Opens a plain TCP connection to the resolved destination.
pub struct TcpOutboundHandler {}

/// Opens a plain UDP socket on the destination's address family.
pub struct UdpOutboundHandler {}

} // verus!
