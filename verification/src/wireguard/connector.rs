//! Where the WireGuard connector binds its sockets.
//!
//! A destination outside of the virtual network must be reached directly. A socket bound to an
//! address of the virtual network would send the outer packets through the tunnel they carry.
use crate::net::{definitely_physical, is_definitely_physical_addr, IpAddr, Ipv4Addr, SocketAddr};
use crate::text::copy_text;
use crate::wireguard::config::WgConfig;
use vstd::prelude::*;

verus! {

/// Which IP versions a name is resolved to.
#[derive(Clone, Copy, Debug, PartialEq, Eq, Structural)]
pub enum IpVersion {
    V4,
    V6,
    Both,
}

/// What is known of the virtual network, where it is known.
pub struct NetworkAnswers {
    /// Whether the destination lies in the virtual network.
    pub dst_in_same_network: bool,
    /// For each address to bind to, whether it is an address of this node in the virtual network.
    pub bind_is_virtual: Vec<bool>,
}

/// A connector.
pub struct WgTunnelConnector {
    pub addr: String,
    pub config: WgConfig,
    pub bind_addrs: Vec<SocketAddr>,
    pub ip_version: IpVersion,
    pub resolved_addr: Option<SocketAddr>,
}

/// Where to bind.
#[derive(Debug)]
pub enum BindPlan {
    /// One socket on any IPv6 address, bound to no device.
    AnyV6,
    /// One socket for each of these.
    Each(Vec<SocketAddr>),
}

/// Any IPv4 address, any port.
pub open spec fn any_v4() -> SocketAddr {
    SocketAddr { ip: IpAddr::V4(Ipv4Addr { bits: 0 }), port: 0, flowinfo: 0, scope_id: 0 }
}

/// Whether the destination lies in the virtual network, as far as it is known.
pub open spec fn in_virtual_network(ip: IpAddr, known: Option<NetworkAnswers>) -> bool {
    match known {
        Some(answers) => answers.dst_in_same_network,
        None => !definitely_physical(ip),
    }
}

/// The addresses among the first `n` that are no addresses of the virtual network; none of them
/// where nothing is known.
pub open spec fn physical_binds(
    addrs: Seq<SocketAddr>,
    known: Option<NetworkAnswers>,
    n: int,
) -> Seq<SocketAddr>
    decreases n,
{
    if n <= 0 {
        Seq::empty()
    } else {
        let rest = physical_binds(addrs, known, n - 1);
        if known matches Some(answers) && !answers.bind_is_virtual@[n - 1] {
            rest.push(addrs[n - 1])
        } else {
            rest
        }
    }
}

/// Where to bind for an IPv4 destination.
pub open spec fn binds_for_v4(
    dst: IpAddr,
    addrs: Seq<SocketAddr>,
    known: Option<NetworkAnswers>,
) -> Seq<SocketAddr> {
    if addrs.len() == 0 {
        seq![any_v4()]
    } else if in_virtual_network(dst, known) {
        addrs
    } else {
        let physical = physical_binds(addrs, known, addrs.len() as int);
        if physical.len() == 0 {
            seq![any_v4()]
        } else {
            physical
        }
    }
}

impl WgTunnelConnector {
    /// A connector to `addr`.
    pub fn new(addr: String, config: WgConfig) -> (res: WgTunnelConnector)
        ensures
            res.addr == addr,
            res.config == config,
            res.bind_addrs@.len() == 0,
            res.ip_version == IpVersion::Both,
            res.resolved_addr is None,
    {
        WgTunnelConnector {
            addr,
            config,
            bind_addrs: Vec::new(),
            ip_version: IpVersion::Both,
            resolved_addr: None,
        }
    }

    /// The URL of the destination.
    pub fn remote_url(&self) -> (url: String)
        ensures
            url@ == self.addr@,
    {
        copy_text(self.addr.as_str())
    }

    /// Sets the addresses to bind to.
    pub fn set_bind_addrs(&mut self, addrs: Vec<SocketAddr>)
        ensures
            *final(self) == (WgTunnelConnector { bind_addrs: addrs, ..*old(self) }),
    {
        self.bind_addrs = addrs;
    }

    /// Sets the IP versions that the destination is resolved to.
    pub fn set_ip_version(&mut self, ip_version: IpVersion)
        ensures
            *final(self) == (WgTunnelConnector { ip_version, ..*old(self) }),
    {
        self.ip_version = ip_version;
    }

    /// Sets the address of the destination, so that it is not resolved again.
    pub fn set_resolved_addr(&mut self, addr: SocketAddr)
        ensures
            *final(self) == (WgTunnelConnector { resolved_addr: Some(addr), ..*old(self) }),
    {
        self.resolved_addr = Some(addr);
    }

    /// Whether the destination lies in the virtual network. Where nothing is known of the network,
    /// only an address that is certainly physical is taken to lie outside.
    pub fn dst_is_in_virtual_network(&self, ip: &IpAddr, known: &Option<NetworkAnswers>) -> (res:
        bool)
        ensures
            res == in_virtual_network(*ip, *known),
    {
        match known {
            Some(answers) => answers.dst_in_same_network,
            None => !is_definitely_physical_addr(ip),
        }
    }

    /// Whether the address at `index` can be bound to for a physical destination. Where nothing is
    /// known of the network, no address can.
    pub fn can_bind_for_physical_dst(&self, index: usize, known: &Option<NetworkAnswers>) -> (res:
        bool)
        requires
            known matches Some(answers) ==> index < answers.bind_is_virtual@.len(),
        ensures
            res == (known matches Some(answers) && !answers.bind_is_virtual@[index as int]),
    {
        match known {
            Some(answers) => !answers.bind_is_virtual[index],
            None => false,
        }
    }

    /// Plans the sockets for a connection to `addr`.
    pub fn plan_connect(&self, addr: SocketAddr, known: &Option<NetworkAnswers>) -> (plan: BindPlan)
        requires
            known matches Some(answers) ==> answers.bind_is_virtual@.len()
                == self.bind_addrs@.len(),
        ensures
            plan is AnyV6 <==> addr.ip is V6,
            plan matches BindPlan::Each(binds) ==> binds@ == binds_for_v4(
                addr.ip,
                self.bind_addrs@,
                *known,
            ),
    {
        let direct_only = !self.dst_is_in_virtual_network(&addr.ip, known);
        if addr.is_ipv6() {
            return BindPlan::AnyV6;
        }
        let any = SocketAddr::new_v4(Ipv4Addr::unspecified(), 0);
        if self.bind_addrs.len() == 0 {
            let binds: Vec<SocketAddr> = vec![any];
            assert(binds@ =~= seq![any_v4()]);
            return BindPlan::Each(binds);
        }
        if !direct_only {
            let binds: Vec<SocketAddr> = self.bind_addrs.clone();
            assert(binds@ =~= self.bind_addrs@);
            return BindPlan::Each(binds);
        }
        let mut physical: Vec<SocketAddr> = Vec::new();
        let mut i: usize = 0;
        while i < self.bind_addrs.len()
            invariant
                i <= self.bind_addrs@.len(),
                known matches Some(answers) ==> answers.bind_is_virtual@.len()
                    == self.bind_addrs@.len(),
                physical@ == physical_binds(self.bind_addrs@, *known, i as int),
            decreases self.bind_addrs@.len() - i,
        {
            if self.can_bind_for_physical_dst(i, known) {
                physical.push(self.bind_addrs[i]);
            }
            i = i + 1;
        }
        if physical.len() == 0 {
            let binds: Vec<SocketAddr> = vec![any];
            assert(binds@ =~= seq![any_v4()]);
            BindPlan::Each(binds)
        } else {
            BindPlan::Each(physical)
        }
    }
}

/// What [`physical_binds`] keeps is an address of the list that is known to be no address of the
/// virtual network.
proof fn lemma_physical_binds(addrs: Seq<SocketAddr>, known: Option<NetworkAnswers>, n: int, i: int)
    requires
        0 <= n <= addrs.len(),
        0 <= i < physical_binds(addrs, known, n).len(),
    ensures
        exists|j: int| #![trigger addrs[j]]
            0 <= j < n && addrs[j] == physical_binds(addrs, known, n)[i] && (known matches Some(
                answers,
            ) && !answers.bind_is_virtual@[j]),
    decreases n,
{
    if n > 0 {
        let rest = physical_binds(addrs, known, n - 1);
        if i < rest.len() {
            lemma_physical_binds(addrs, known, n - 1, i);
            let j = choose|j: int| #![trigger addrs[j]]
                0 <= j < n - 1 && addrs[j] == rest[i] && (known matches Some(answers)
                    && !answers.bind_is_virtual@[j]);
            assert(addrs[j] == physical_binds(addrs, known, n)[i]);
        } else {
            assert(addrs[n - 1] == physical_binds(addrs, known, n)[i]);
        }
    }
}

/// For a destination outside of the virtual network no socket is bound to an address of the
/// virtual network, and there is always a socket.
pub proof fn physical_destinations_are_reached_directly(
    dst: IpAddr,
    addrs: Seq<SocketAddr>,
    known: Option<NetworkAnswers>,
)
    requires
        !in_virtual_network(dst, known),
    ensures
        binds_for_v4(dst, addrs, known).len() > 0,
        forall|i: int| #![trigger binds_for_v4(dst, addrs, known)[i]]
            0 <= i < binds_for_v4(dst, addrs, known).len() ==> {
                ||| binds_for_v4(dst, addrs, known)[i] == any_v4()
                ||| exists|j: int| #![trigger addrs[j]]
                    0 <= j < addrs.len() && addrs[j] == binds_for_v4(dst, addrs, known)[i] && (
                    known matches Some(answers) && !answers.bind_is_virtual@[j])
            },
{
    let physical = physical_binds(addrs, known, addrs.len() as int);
    if addrs.len() > 0 && physical.len() > 0 {
        assert forall|i: int| #![trigger binds_for_v4(dst, addrs, known)[i]]
            0 <= i < physical.len() implies exists|j: int| #![trigger addrs[j]]
            0 <= j < addrs.len() && addrs[j] == binds_for_v4(dst, addrs, known)[i] && (known matches
            Some(answers) && !answers.bind_is_virtual@[j]) by {
            lemma_physical_binds(addrs, known, addrs.len() as int, i);
        }
    }
}

/// Where nothing is known of the virtual network, a physical destination is reached from whatever
/// address the system chooses.
pub proof fn unknown_networks_bind_to_no_interface(dst: IpAddr, addrs: Seq<SocketAddr>)
    requires
        definitely_physical(dst),
    ensures
        binds_for_v4(dst, addrs, None) == seq![any_v4()],
{
    let physical = physical_binds(addrs, None, addrs.len() as int);
    if physical.len() > 0 {
        lemma_physical_binds(addrs, None, addrs.len() as int, 0);
    }
}

/// An address that is not known to be virtual is bound to exactly where the network is known, and
/// what is kept of the first addresses stays in front of what is kept of the next.
pub proof fn physical_binds_are_the_physical_addresses(
    addrs: Seq<SocketAddr>,
    known: Option<NetworkAnswers>,
    n: int,
    j: int,
)
    requires
        0 <= j < n <= addrs.len(),
    ensures
        known is None ==> physical_binds(addrs, known, n).len() == 0,
        known matches Some(answers) ==> !answers.bind_is_virtual@[j] ==> physical_binds(
            addrs,
            known,
            n,
        ).contains(addrs[j]),
        known matches Some(answers) ==> {
            let before = physical_binds(addrs, known, j);
            let after = physical_binds(addrs, known, j + 1);
            &&& answers.bind_is_virtual@[j] ==> after == before
            &&& !answers.bind_is_virtual@[j] ==> after == before.push(addrs[j])
        },
        physical_binds(addrs, known, j).len() <= physical_binds(addrs, known, n).len(),
        physical_binds(addrs, known, n).take(physical_binds(addrs, known, j).len() as int)
            == physical_binds(addrs, known, j),
    decreases n,
{
    let all = physical_binds(addrs, known, n);
    let rest = physical_binds(addrs, known, n - 1);
    if j < n - 1 {
        physical_binds_are_the_physical_addresses(addrs, known, n - 1, j);
        if rest.contains(addrs[j]) {
            let k = choose|k: int| 0 <= k < rest.len() && rest[k] == addrs[j];
            assert(all[k] == addrs[j]);
        }
        let part = physical_binds(addrs, known, j);
        assert(all.take(part.len() as int) =~= rest.take(part.len() as int));
    } else {
        if known matches Some(answers) && !answers.bind_is_virtual@[j] {
            assert(all[rest.len() as int] == addrs[j]);
        }
        assert(all.take(rest.len() as int) =~= rest);
        if known is None && n > 1 {
            physical_binds_are_the_physical_addresses(addrs, known, n - 1, 0);
        }
    }
}

/// Where a connection to an IPv4 address is bound: without addresses to bind to, to any; within the
/// virtual network, to all of the given addresses, in their order; outside of it, never to one that
/// is known to be virtual, and to any only where there is no other.
pub proof fn where_sockets_are_bound(
    dst: IpAddr,
    addrs: Seq<SocketAddr>,
    answers: NetworkAnswers,
)
    requires
        answers.bind_is_virtual@.len() == addrs.len(),
    ensures
        addrs.len() == 0 ==> binds_for_v4(dst, addrs, Some(answers)) == seq![any_v4()]
            && binds_for_v4(dst, addrs, None) == seq![any_v4()],
        addrs.len() > 0 && answers.dst_in_same_network ==> binds_for_v4(dst, addrs, Some(answers))
            == addrs,
        addrs.len() > 0 && !definitely_physical(dst) ==> binds_for_v4(dst, addrs, None) == addrs,
        !answers.dst_in_same_network ==> forall|j: int|
            0 <= j < addrs.len() && !#[trigger] answers.bind_is_virtual@[j] ==> binds_for_v4(
                dst,
                addrs,
                Some(answers),
            ).contains(addrs[j]),
        !answers.dst_in_same_network && (exists|j: int|
            0 <= j < addrs.len() && !#[trigger] answers.bind_is_virtual@[j]) ==> binds_for_v4(
            dst,
            addrs,
            Some(answers),
        ) == physical_binds(addrs, Some(answers), addrs.len() as int),
        !answers.dst_in_same_network && (forall|j: int|
            0 <= j < addrs.len() ==> #[trigger] answers.bind_is_virtual@[j]) ==> binds_for_v4(
            dst,
            addrs,
            Some(answers),
        ) == seq![any_v4()],
{
    let known = Some(answers);
    let n = addrs.len() as int;
    let physical = physical_binds(addrs, known, n);
    if !answers.dst_in_same_network {
        assert forall|j: int|
            0 <= j < addrs.len() && !#[trigger] answers.bind_is_virtual@[j] implies binds_for_v4(
            dst,
            addrs,
            known,
        ).contains(addrs[j]) by {
            physical_binds_are_the_physical_addresses(addrs, known, n, j);
        }
        if physical.len() > 0 {
            lemma_physical_binds(addrs, known, n, 0);
        }
        if exists|j: int| 0 <= j < addrs.len() && !#[trigger] answers.bind_is_virtual@[j] {
            let j = choose|j: int| 0 <= j < addrs.len() && !#[trigger] answers.bind_is_virtual@[j];
            physical_binds_are_the_physical_addresses(addrs, known, n, j);
            assert(physical.len() > 0);
        }
    }
}

/// The address that stands for any is 0.0.0.0 with port 0.
pub proof fn any_is_the_unspecified_address()
    ensures
        any_v4().ip == IpAddr::V4(Ipv4Addr { bits: 0 }),
        any_v4().port == 0,
{
}

/// What is known of the network decides whether a destination lies in it; where nothing is known,
/// every destination counts as lying in it that is not certainly physical.
pub proof fn destinations_count_as_virtual_unless_known(ip: IpAddr, answers: NetworkAnswers)
    ensures
        in_virtual_network(ip, Some(answers)) == answers.dst_in_same_network,
        in_virtual_network(ip, None) == !definitely_physical(ip),
{
}

/// A connection to an IPv6 address is made from any address; one to an IPv4 address has at least one
/// socket, and within the known network one for each address to bind to.
pub proof fn every_connection_has_a_socket(
    connector: WgTunnelConnector,
    addr: SocketAddr,
    known: Option<NetworkAnswers>,
    plan: BindPlan,
)
    requires
        known matches Some(answers) ==> answers.bind_is_virtual@.len() == connector.bind_addrs@.len(),
        call_ensures(WgTunnelConnector::plan_connect, (&connector, addr, &known), plan),
    ensures
        addr.ip is V6 <==> plan is AnyV6,
        addr.ip is V4 ==> (plan matches BindPlan::Each(binds) && binds@.len() > 0),
        addr.ip is V4 && connector.bind_addrs@.len() > 0 && (known matches Some(answers)
            && answers.dst_in_same_network) ==> (plan matches BindPlan::Each(binds) && binds@
            == connector.bind_addrs@),
{
}

/// An address can be bound to for a physical destination only where the network is known and the address
/// is no virtual one.
pub proof fn only_physical_addresses_serve_physical_destinations(
    connector: WgTunnelConnector,
    index: usize,
    answers: NetworkAnswers,
    known: bool,
    unknown: bool,
)
    requires
        index < answers.bind_is_virtual@.len(),
        call_ensures(
            WgTunnelConnector::can_bind_for_physical_dst,
            (&connector, index, &Some(answers)),
            known,
        ),
        call_ensures(
            WgTunnelConnector::can_bind_for_physical_dst,
            (&connector, index, &None::<NetworkAnswers>),
            unknown,
        ),
    ensures
        !unknown,
        known <==> !answers.bind_is_virtual@[index as int],
{
}

} // verus!
