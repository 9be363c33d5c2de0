//! Configuration model: the typed shape of the JSON configuration after the
//! surrounding program has deserialized it.
use crate::addr::SocketAddress;
use vstd::prelude::*;

verus! {

/// Global switches of the resolver and dial policy.
#[derive(Clone, Copy, PartialEq, Eq, Structural, Debug)]
pub struct GeneralSettings {
    pub prefer_ipv6: bool,
    pub use_ipv6: bool,
}

impl Default for GeneralSettings {
    /// Both address-family switches start off.
    fn default() -> (r: GeneralSettings)
        ensures
            !r.prefer_ipv6 && !r.use_ipv6,
    {
        GeneralSettings { prefer_ipv6: false, use_ipv6: false }
    }
}

/// Settings of a SOCKS5 inbound; it needs none.
#[derive(Clone, Debug)]
pub struct Socks5InboundSettings {}

/// Settings of a SOCKS5 outbound: the upstream server.
#[derive(Clone, Debug)]
pub struct Socks5OutboundSettings {
    pub address: String,
    pub port: u16,
}

/// Settings of a Shadowsocks inbound.
#[derive(Clone, Debug)]
pub struct ShadowsocksInboundSettings {
    pub address: String,
    pub port: u16,
    pub method: String,
    pub password: String,
}

/// Settings of a Shadowsocks outbound.
#[derive(Clone, Debug)]
pub struct ShadowsocksOutboundSettings {
    pub address: String,
    pub port: u16,
    pub password: String,
    pub method: String,
}

/// The typed settings an outbound may carry.
#[derive(Clone, Debug)]
pub enum OutboundSettings {
    Socks(Socks5OutboundSettings),
    Shadowsocks(ShadowsocksOutboundSettings),
}

/// One configured outbound.
#[derive(Clone, Debug)]
pub struct Outbound {
    pub protocol: String,
    pub settings: Option<OutboundSettings>,
    pub tag: String,
}

/// The typed settings an inbound may carry.
#[derive(Clone, Debug)]
pub enum InboundSettings {
    Socks(Socks5InboundSettings),
    Shadowsocks(ShadowsocksInboundSettings),
}

/// One configured inbound.
#[derive(Clone, Debug)]
pub struct Inbound {
    pub port: Option<u16>,
    pub listen: Option<String>,
    pub protocol: String,
    pub tag: String,
    pub settings: Option<InboundSettings>,
}

/// One routing rule: a target tag and up to three matcher lists.
#[derive(Clone, Debug)]
#[allow(non_snake_case)]
pub struct Rule {
    pub ip: Option<Vec<String>>,
    pub portRange: Option<Vec<String>>,
    pub domain: Option<Vec<String>>,
    pub domainSuffix: Option<Vec<String>>,
    pub domainKeyword: Option<Vec<String>>,
    pub regexp: Option<Vec<String>>,
    pub target: String,
}

/// The resolver's configuration.
#[derive(Clone, Debug)]
pub struct DnsConfig {
    pub ip: Option<SocketAddress>,
    pub bind: String,
    pub servers: Option<Vec<String>>,
    pub hosts: Option<Vec<(String, Vec<String>)>>,
}

/// The whole configuration.
#[derive(Clone, Debug)]
pub struct Config {
    pub general: GeneralSettings,
    pub inbounds: Vec<Inbound>,
    pub outbounds: Vec<Outbound>,
    pub routes: Vec<Rule>,
    pub dns: Option<DnsConfig>,
}

impl Default for Config {
    /// An empty configuration: no listeners, no outbounds, no routes, no
    /// resolver, and both address-family switches off.
    fn default() -> (r: Config)
        ensures
            !r.general.prefer_ipv6,
            !r.general.use_ipv6,
            r.inbounds@.len() == 0,
            r.outbounds@.len() == 0,
            r.routes@.len() == 0,
            r.dns is None,
    {
        Config {
            general: GeneralSettings { prefer_ipv6: false, use_ipv6: false },
            inbounds: Vec::new(),
            outbounds: Vec::new(),
            routes: Vec::new(),
            dns: None,
        }
    }
}

} // verus!
