//! The DNS service of an exit node, on its address in the virtual network.
use crate::dns::forward_rpc::{fallback_servers, fallback_upstreams};
use crate::ip_text::{ipv4_text, ipv4_to_text};
use crate::net::{IpAddr, Ipv4Addr, SocketAddr};
use crate::scan::{trim, trimmed};
use crate::text::{chars_of, copy_text, join_three, join_two, push_text};
use hickory_proto::rr::LowerName;
use std::str::FromStr;
use vstd::prelude::*;

verus! {

/// How often the names of the virtual network are collected anew.
pub const ZONE_REFRESH_SECS: u64 = 5;

/// The zone of the virtual network where none is configured.
pub const DEFAULT_ET_DNS_ZONE: &'static str = "et.net.";

/// The address that stands for the DNS service of a client: 100.100.100.101.
pub open spec fn magic_dns_fake_ip() -> Ipv4Addr {
    Ipv4Addr::of_octets(100, 100, 100, 101)
}

/// The zone that is served.
pub open spec fn zone_of(configured: Seq<char>) -> Seq<char> {
    if trimmed(configured).len() == 0 {
        DEFAULT_ET_DNS_ZONE@
    } else {
        configured
    }
}

/// The zone that is served.
pub fn dns_zone(configured: &str) -> (zone: String)
    ensures
        zone@ == zone_of(configured@),
{
    let shown = trim(configured);
    if chars_of(shown.as_str()).len() == 0 {
        copy_text(DEFAULT_ET_DNS_ZONE)
    } else {
        copy_text(configured)
    }
}

/// What `LowerName::from_str` makes of a zone: its name, or the error.
pub uninterp spec fn lower_name(zone: Seq<char>) -> Result<Seq<char>, Seq<char>>;

/// A result, over sequences.
pub open spec fn result_view(res: Result<String, String>) -> Result<Seq<char>, Seq<char>> {
    match res {
        Ok(s) => Ok(s@),
        Err(e) => Err(e@),
    }
}

/// `hickory_proto::rr::LowerName::from_str`, of which the name or the error is written as text.
/// Claimed: the result depends on the zone alone.
#[verifier::external_body]
fn parse_lower_name(zone: &str) -> (res: Result<String, String>)
    ensures
        result_view(res) == lower_name(zone@),
{
    match LowerName::from_str(zone) {
        Ok(name) => Ok(name.to_string()),
        Err(e) => Err(e.to_string()),
    }
}

/// The name under which a zone is served, given what its parsing gave.
pub open spec fn zone_key_of(
    zone: Seq<char>,
    parsed: Result<Seq<char>, Seq<char>>,
) -> Result<Seq<char>, Seq<char>> {
    match parsed {
        Ok(name) => Ok(name),
        Err(e) => Err("invalid zone "@ + zone + ": "@ + e),
    }
}

/// The name under which a zone is served, given what its parsing gave.
pub fn zone_key_from(zone: &str, parsed: Result<String, String>) -> (res: Result<String, String>)
    ensures
        result_view(res) == zone_key_of(zone@, result_view(parsed)),
{
    match parsed {
        Ok(name) => Ok(name),
        Err(e) => {
            let mut s = join_three("invalid zone ", zone, ": ");
            push_text(&mut s, e.as_str());
            Err(s)
        },
    }
}

/// The name under which a zone is served.
pub fn zone_key(zone: &str) -> (res: Result<String, String>)
    ensures
        result_view(res) == zone_key_of(zone@, lower_name(zone@)),
{
    zone_key_from(zone, parse_lower_name(zone))
}

/// A node of the virtual network and its address.
#[derive(Debug)]
pub struct ZoneHost {
    pub hostname: String,
    pub ipv4_addr: Option<Ipv4Addr>,
}

/// The nodes whose names are served: those of the routes, and this node.
pub fn refresh_zone(routes: Vec<ZoneHost>, own: ZoneHost) -> (hosts: Vec<ZoneHost>)
    ensures
        hosts@ == routes@.push(own),
{
    let mut hosts = routes;
    hosts.push(own);
    hosts
}

/// How the service is set up.
#[derive(Debug)]
pub struct ExitDnsServer {
    pub zone: String,
    pub listen_addr: SocketAddr,
    /// The listening address as text, for UDP and for TCP.
    pub listen_text: String,
    /// Servers that must not be used as upstream, because they lead back here.
    pub excluded_forward_nameservers: Vec<IpAddr>,
    /// The upstream servers that the user set.
    pub forward_upstreams: Vec<SocketAddr>,
    /// The upstream servers where the system names none.
    pub fallback_forward_upstreams: Vec<SocketAddr>,
}

impl ExitDnsServer {
    /// Sets the service up on the node's address in the virtual network.
    pub fn start(configured_zone: &str, tun_ipv4: Ipv4Addr, custom_upstreams: Vec<SocketAddr>) -> (
    server: ExitDnsServer)
        ensures
            server.zone@ == zone_of(configured_zone@),
            server.listen_addr == (SocketAddr {
                ip: IpAddr::V4(tun_ipv4),
                port: 53,
                flowinfo: 0,
                scope_id: 0,
            }),
            server.listen_text@ == ipv4_text(tun_ipv4) + ":53"@,
            server.excluded_forward_nameservers@ == seq![
                IpAddr::V4(tun_ipv4),
                IpAddr::V4(magic_dns_fake_ip()),
            ],
            server.forward_upstreams == custom_upstreams,
            server.fallback_forward_upstreams@ == fallback_servers(),
    {
        let mut excluded: Vec<IpAddr> = Vec::new();
        excluded.push(IpAddr::V4(tun_ipv4));
        excluded.push(IpAddr::V4(Ipv4Addr::new(100, 100, 100, 101)));
        assert(excluded@ =~= seq![IpAddr::V4(tun_ipv4), IpAddr::V4(magic_dns_fake_ip())]);
        ExitDnsServer {
            zone: dns_zone(configured_zone),
            listen_addr: SocketAddr::new_v4(tun_ipv4, 53),
            listen_text: join_two(ipv4_to_text(tun_ipv4).as_str(), ":53"),
            excluded_forward_nameservers: excluded,
            forward_upstreams: custom_upstreams,
            fallback_forward_upstreams: fallback_upstreams(),
        }
    }

    /// The address that the service listens at.
    pub fn listen_addr(&self) -> (addr: SocketAddr)
        ensures
            addr == self.listen_addr,
    {
        self.listen_addr
    }
}

/// The error of a service that cannot listen.
pub fn bind_error(server: &ExitDnsServer, error: &str) -> (s: String)
    ensures
        s@ == "exit dns server failed to bind "@ + server.listen_text@ + ": "@ + error@,
{
    let mut s = join_three("exit dns server failed to bind ", server.listen_text.as_str(), ": ");
    push_text(&mut s, error);
    s
}

/// The address that stands for the DNS service of a client is 100.100.100.101.
pub proof fn the_fake_address_by_its_octets()
    ensures
        magic_dns_fake_ip().bits == 100 * 0x100_0000 + 100 * 0x1_0000 + 100 * 0x100 + 101,
{
}

/// The zone is served as it is configured, unless it is blank: the zone is `et.net.` then.
pub proof fn a_blank_zone_is_replaced(configured: Seq<char>)
    ensures
        trimmed(configured).len() > 0 ==> zone_of(configured) == configured,
        trimmed(configured).len() == 0 ==> zone_of(configured) == "et.net."@,
{
}

/// A zone whose name can be read is served under that name; the error of another one names the zone
/// and the reason.
pub proof fn zones_are_served_under_their_names(zone: Seq<char>, name: Seq<char>, reason: Seq<char>)
    ensures
        zone_key_of(zone, Ok(name)) == Ok::<Seq<char>, Seq<char>>(name),
        zone_key_of(zone, Err(reason)) matches Err(e) && e.len() == 15 + zone.len() + reason.len()
            && e.subrange(13, 13 + zone.len() as int) == zone && e.skip(15 + zone.len() as int)
            == reason && e.take(13) == "invalid zone "@ && e.subrange(
            13 + zone.len() as int,
            15 + zone.len() as int,
        ) == ": "@,
{
    reveal_strlit("invalid zone ");
    reveal_strlit(": ");
    let e = "invalid zone "@ + zone + ": "@ + reason;
    assert(e.subrange(13, 13 + zone.len() as int) =~= zone);
    assert(e.skip(15 + zone.len() as int) =~= reason);
    assert(e.take(13) =~= "invalid zone "@);
    assert(e.subrange(13 + zone.len() as int, 15 + zone.len() as int) =~= ": "@);
}

/// A result is shown as it is.
pub proof fn results_are_shown_as_they_are(s: String)
    ensures
        result_view(Ok(s)) == Ok::<Seq<char>, Seq<char>>(s@),
        result_view(Err(s)) == Err::<Seq<char>, Seq<char>>(s@),
        ZONE_REFRESH_SECS == 5,
{
}

/// The service listens on port 53 of the node's own address, never forwards to itself or to the fake
/// address, and keeps the servers that the user set.
pub proof fn how_the_service_is_set_up(
    zone: &str,
    ip: Ipv4Addr,
    upstreams: Vec<SocketAddr>,
    server: ExitDnsServer,
)
    requires
        call_ensures(ExitDnsServer::start, (zone, ip, upstreams), server),
    ensures
        server.listen_addr.ip == IpAddr::V4(ip),
        server.listen_addr.port == 53,
        server.excluded_forward_nameservers@.contains(IpAddr::V4(ip)),
        server.excluded_forward_nameservers@.contains(IpAddr::V4(Ipv4Addr { bits: 0x6464_6465 })),
        server.excluded_forward_nameservers@.len() == 2,
        server.forward_upstreams == upstreams,
        server.fallback_forward_upstreams@.len() == 2,
{
    the_fake_address_by_its_octets();
    assert(server.excluded_forward_nameservers@[0] == IpAddr::V4(ip));
    assert(server.excluded_forward_nameservers@[1] == IpAddr::V4(Ipv4Addr { bits: 0x6464_6465 }));
}

/// The names of all nodes of the routes are served, in their order, and after them that of this node.
pub proof fn this_node_is_served_after_the_others(
    routes: Vec<ZoneHost>,
    own: ZoneHost,
    hosts: Vec<ZoneHost>,
    i: int,
)
    requires
        call_ensures(refresh_zone, (routes, own), hosts),
        0 <= i < routes@.len(),
    ensures
        hosts@.len() == routes@.len() + 1,
        hosts@[i] == routes@[i],
        hosts@[routes@.len() as int] == own,
{
}

/// The error of a service that cannot listen names the address and the reason.
pub proof fn a_bind_error_names_address_and_reason(server: ExitDnsServer, error: &str, s: String)
    requires
        call_ensures(bind_error, (&server, error), s),
    ensures
        s@.take(31) == "exit dns server failed to bind "@,
        s@.subrange(31, 31 + server.listen_text@.len() as int) == server.listen_text@,
        s@.skip(33 + server.listen_text@.len() as int) == error@,
        s@.len() == 33 + server.listen_text@.len() + error@.len(),
{
    reveal_strlit("exit dns server failed to bind ");
    reveal_strlit(": ");
    let n = server.listen_text@.len() as int;
    assert(s@.take(31) =~= "exit dns server failed to bind "@);
    assert(s@.subrange(31, 31 + n) =~= server.listen_text@);
    assert(s@.skip(33 + n) =~= error@);
}

} // verus!
