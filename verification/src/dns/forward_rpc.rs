//! The exit node's side of forwarding: queries of clients are put to the upstream servers of this
//! node, one after the other.
use crate::net::{IpAddr, Ipv4Addr, SocketAddr};
use crate::text::{copy_text, join_three, push_text};
use vstd::prelude::*;

verus! {

/// How long an upstream server may take.
pub const UPSTREAM_QUERY_TIMEOUT_SECS: u64 = 5;

/// How long an exit node may take.
pub const EXIT_NODE_RPC_TIMEOUT_SECS: u64 = 5;

/// The longest answer that is received.
pub const MAX_DNS_RESPONSE_SIZE: usize = 4096;

/// An IPv4 address with the port of the DNS service.
pub open spec fn dns_addr(ip: Ipv4Addr) -> SocketAddr {
    SocketAddr { ip: IpAddr::V4(ip), port: 53, flowinfo: 0, scope_id: 0 }
}

/// The servers that are asked where the system names none: 8.8.8.8 and 1.1.1.1.
pub open spec fn fallback_servers() -> Seq<SocketAddr> {
    seq![
        dns_addr(Ipv4Addr::of_octets(8, 8, 8, 8)),
        dns_addr(Ipv4Addr::of_octets(1, 1, 1, 1)),
    ]
}

/// The servers that are asked where the system names none.
pub fn fallback_upstreams() -> (res: Vec<SocketAddr>)
    ensures
        res@ == fallback_servers(),
{
    let mut res: Vec<SocketAddr> = Vec::new();
    res.push(SocketAddr::new_v4(Ipv4Addr::new(8, 8, 8, 8), 53));
    res.push(SocketAddr::new_v4(Ipv4Addr::new(1, 1, 1, 1), 53));
    assert(res@ =~= fallback_servers());
    res
}

/// The upstream servers: those of the system, in its order, or the fallback where it has none.
pub fn upstream_name_servers(system: &Vec<SocketAddr>) -> (res: Vec<SocketAddr>)
    ensures
        res@ == (if system@.len() == 0 {
            fallback_servers()
        } else {
            system@
        }),
        res@.len() > 0,
{
    if system.len() == 0 {
        return fallback_upstreams();
    }
    let res = system.clone();
    assert(res@ =~= system@);
    res
}

/// What came of asking an upstream server.
#[derive(Debug)]
pub enum UpstreamFailure {
    /// Sending or receiving failed, for this reason.
    Failed(String),
    /// It did not answer in time.
    Timeout,
}

/// The error of an upstream server.
pub open spec fn upstream_error(server: Seq<char>, failure: UpstreamFailure) -> Seq<char> {
    match failure {
        UpstreamFailure::Failed(e) => "upstream "@ + server + " query failed: "@ + e@,
        UpstreamFailure::Timeout => "upstream "@ + server + " query timeout"@,
    }
}

/// The error of an upstream server.
pub fn upstream_error_text(server: &str, failure: &UpstreamFailure) -> (s: String)
    ensures
        s@ == upstream_error(server@, *failure),
{
    match failure {
        UpstreamFailure::Failed(e) => {
            let mut s = join_three("upstream ", server, " query failed: ");
            push_text(&mut s, e.as_str());
            s
        },
        UpstreamFailure::Timeout => join_three("upstream ", server, " query timeout"),
    }
}

/// A query on its way through the upstream servers, which are named by their addresses.
#[derive(Debug)]
pub struct UpstreamRelay {
    pub servers: Vec<String>,
    /// How many servers failed.
    pub failed: usize,
    pub last_error: String,
}

impl UpstreamRelay {
    /// No more servers failed than there are.
    pub open spec fn wf(self) -> bool {
        self.servers@.len() > 0 && self.failed <= self.servers@.len()
    }

    /// A query that goes through `servers`; refused where there are none.
    pub fn new(servers: Vec<String>) -> (res: Result<UpstreamRelay, String>)
        ensures
            res is Ok <==> servers@.len() > 0,
            res matches Ok(relay) ==> relay.wf() && relay.servers == servers && relay.failed == 0
                && relay.last_error@ == "upstream "@ + servers@[0]@ + " did not respond"@,
            res matches Err(e) ==> e@ == "no upstream dns server available"@,
    {
        if servers.len() == 0 {
            return Err(copy_text("no upstream dns server available"));
        }
        let last_error = join_three("upstream ", servers[0].as_str(), " did not respond");
        Ok(UpstreamRelay { servers, failed: 0, last_error })
    }

    /// The place of the server to ask next; none where all have failed.
    pub fn next(&self) -> (res: Option<usize>)
        ensures
            res == (if self.failed < self.servers@.len() {
                Some(self.failed)
            } else {
                None
            }),
    {
        if self.failed < self.servers.len() {
            Some(self.failed)
        } else {
            None
        }
    }

    /// The server that was asked failed.
    pub fn note_failure(&mut self, failure: UpstreamFailure)
        requires
            old(self).wf(),
            old(self).failed < old(self).servers@.len(),
        ensures
            final(self).wf(),
            final(self).servers == old(self).servers,
            final(self).failed == old(self).failed + 1,
            final(self).last_error@ == upstream_error(
                old(self).servers@[old(self).failed as int]@,
                failure,
            ),
    {
        self.last_error = upstream_error_text(self.servers[self.failed].as_str(), &failure);
        if self.failed < self.servers.len() {
            self.failed = self.failed + 1;
        }
    }
}

/// What an exit node answers.
#[derive(Debug)]
pub struct ResolveDnsResponse {
    pub response: Vec<u8>,
    pub error: String,
}

/// The service that answers clients.
#[derive(Clone, Copy, Debug)]
pub struct MagicDnsForwardService;

impl MagicDnsForwardService {
    /// The answer to a query that need not be relayed: an empty one is refused.
    pub fn refuse_query(&self, query: &[u8]) -> (res: Option<ResolveDnsResponse>)
        ensures
            res is Some <==> query@.len() == 0,
            res matches Some(resp) ==> resp.response@.len() == 0 && resp.error@
                == "empty dns query"@,
    {
        if query.len() == 0 {
            Some(ResolveDnsResponse { response: Vec::new(), error: copy_text("empty dns query") })
        } else {
            None
        }
    }

    /// The answer to a client, given what came of relaying its query: the answer or the error, never
    /// both.
    pub fn resolve_dns(&self, relayed: Result<Vec<u8>, String>) -> (resp: ResolveDnsResponse)
        ensures
            match relayed {
                Ok(bytes) => resp.response@ == bytes@ && resp.error@.len() == 0,
                Err(e) => resp.response@.len() == 0 && resp.error@ == e@,
            },
    {
        match relayed {
            Ok(response) => ResolveDnsResponse { response, error: String::new() },
            Err(error) => ResolveDnsResponse { response: Vec::new(), error },
        }
    }
}

/// What is known of a configured exit node.
#[derive(Clone, Copy, Debug, PartialEq, Eq, Structural)]
pub struct ExitNodeStatus {
    /// The peer that has its address.
    pub peer_id: Option<u32>,
    pub has_peer: bool,
    pub directly_connected: bool,
}

/// The exit node is a peer with a live session.
pub open spec fn is_online(node: ExitNodeStatus) -> bool {
    node.peer_id is Some && (node.has_peer || node.directly_connected)
}

/// The first exit node with a live session.
pub fn select_online_exit_node(exit_nodes: &Vec<ExitNodeStatus>) -> (res: Option<u32>)
    ensures
        match res {
            Some(id) => exists|i: int|
                0 <= i < exit_nodes@.len() && is_online(#[trigger] exit_nodes@[i])
                    && exit_nodes@[i].peer_id == Some(id) && forall|j: int|
                    0 <= j < i ==> !is_online(#[trigger] exit_nodes@[j]),
            None => forall|i: int|
                0 <= i < exit_nodes@.len() ==> !is_online(#[trigger] exit_nodes@[i]),
        },
        forall|i: int|
            0 <= i < exit_nodes@.len() && (#[trigger] exit_nodes@[i]).peer_id is Some
                && exit_nodes@[i].has_peer ==> res is Some,
        forall|i: int|
            0 <= i < exit_nodes@.len() && (#[trigger] exit_nodes@[i]).peer_id is Some
                && exit_nodes@[i].directly_connected ==> res is Some,
        res matches Some(id) ==> exists|i: int|
            0 <= i < exit_nodes@.len() && (#[trigger] exit_nodes@[i]).peer_id == Some(id) && (
            exit_nodes@[i].has_peer || exit_nodes@[i].directly_connected) && forall|j: int|
                0 <= j < i ==> (#[trigger] exit_nodes@[j]).peer_id is None || (
                !exit_nodes@[j].has_peer && !exit_nodes@[j].directly_connected),
{
    let mut i: usize = 0;
    while i < exit_nodes.len()
        invariant
            i <= exit_nodes@.len(),
            forall|j: int| 0 <= j < i ==> !is_online(#[trigger] exit_nodes@[j]),
        decreases exit_nodes@.len() - i,
    {
        let node = exit_nodes[i];
        match node.peer_id {
            Some(id) => {
                if node.has_peer || node.directly_connected {
                    assert(is_online(exit_nodes@[i as int]));
                    return Some(id);
                }
            },
            None => {},
        }
        i = i + 1;
    }
    None
}

/// The answer of an exit node, where it gave one: it reports no error and is not empty. `None` is
/// what came of a call that failed or took too long.
pub fn resolve_dns_via_exit_node(reply: Option<ResolveDnsResponse>) -> (res: Option<Vec<u8>>)
    ensures
        match res {
            Some(bytes) => (reply matches Some(resp) && resp.error@.len() == 0
                && resp.response@.len() > 0 && bytes@ == resp.response@),
            None => reply matches Some(resp) ==> resp.error@.len() > 0 || resp.response@.len() == 0,
        },
{
    match reply {
        Some(resp) => {
            if is_empty_text(resp.error.as_str()) && resp.response.len() > 0 {
                Some(resp.response)
            } else {
                None
            }
        },
        None => None,
    }
}

/// Whether a text is empty.
fn is_empty_text(s: &str) -> (res: bool)
    ensures
        res == (s@.len() == 0),
{
    crate::text::chars_of(s).len() == 0
}

/// A client takes exactly the answers that the service gives, unless they are empty.
pub proof fn the_client_takes_what_the_service_gives(
    relayed: Result<Seq<u8>, Seq<char>>,
    response: Seq<u8>,
    error: Seq<char>,
)
    requires
        match relayed {
            Ok(bytes) => response == bytes && error.len() == 0,
            Err(e) => response.len() == 0 && error == e,
        },
    ensures
        error.len() == 0 && response.len() > 0 <==> (relayed matches Ok(bytes) && bytes.len() > 0),
{
}

/// Each of the two signs of a live session is enough alone, and one of them is needed; without a
/// peer id neither helps.
pub proof fn either_sign_makes_an_exit_node_online(node: ExitNodeStatus)
    ensures
        node.peer_id is Some && node.has_peer ==> is_online(node),
        node.peer_id is Some && node.directly_connected ==> is_online(node),
        is_online(node) ==> node.peer_id is Some && (node.has_peer || node.directly_connected),
{
}

/// Where some exit node has a peer id and either sign of a live session, one is selected: the first
/// such node in the list. Where none has, none is selected.
pub proof fn the_first_live_exit_node_is_selected(
    exit_nodes: Vec<ExitNodeStatus>,
    res: Option<u32>,
    i: int,
)
    requires
        call_ensures(select_online_exit_node, (&exit_nodes,), res),
        0 <= i < exit_nodes@.len(),
        exit_nodes@[i].peer_id is Some,
        exit_nodes@[i].has_peer || exit_nodes@[i].directly_connected,
        forall|j: int|
            0 <= j < i ==> (#[trigger] exit_nodes@[j]).peer_id is None || (!exit_nodes@[j].has_peer
                && !exit_nodes@[j].directly_connected),
    ensures
        res == exit_nodes@[i].peer_id,
{
}

/// The servers that are asked where the system names none are 8.8.8.8 and 1.1.1.1, in this order,
/// each at port 53.
pub proof fn the_fallback_is_two_public_servers()
    ensures
        fallback_servers().len() == 2,
        fallback_servers()[0].ip == IpAddr::V4(Ipv4Addr { bits: 0x0808_0808 }),
        fallback_servers()[1].ip == IpAddr::V4(Ipv4Addr { bits: 0x0101_0101 }),
        fallback_servers()[0].port == 53,
        fallback_servers()[1].port == 53,
        forall|ip: Ipv4Addr|
            (#[trigger] dns_addr(ip)).ip == IpAddr::V4(ip) && dns_addr(ip).port == 53 && dns_addr(
                ip,
            ).flowinfo == 0 && dns_addr(ip).scope_id == 0,
{
}

/// The error of an upstream server names the server, and tells a failure, with its reason, from a
/// server that did not answer in time.
pub proof fn upstream_errors_name_the_server(server: Seq<char>, other: Seq<char>, e: String)
    ensures
        upstream_error(server, UpstreamFailure::Timeout).len() == server.len() + 23,
        upstream_error(server, UpstreamFailure::Failed(e)).len() == server.len() + e@.len() + 24,
        upstream_error(server, UpstreamFailure::Timeout).take(9) == "upstream "@,
        upstream_error(server, UpstreamFailure::Failed(e)).take(9) == "upstream "@,
        upstream_error(server, UpstreamFailure::Timeout).subrange(9, 9 + server.len() as int)
            == server,
        upstream_error(server, UpstreamFailure::Failed(e)).subrange(9, 9 + server.len() as int)
            == server,
        upstream_error(server, UpstreamFailure::Timeout).skip(9 + server.len() as int)
            == " query timeout"@,
        upstream_error(server, UpstreamFailure::Failed(e)).skip(24 + server.len() as int) == e@,
        upstream_error(server, UpstreamFailure::Failed(e)).subrange(
            9 + server.len() as int,
            24 + server.len() as int,
        ) == " query failed: "@,
        upstream_error(server, UpstreamFailure::Timeout) == upstream_error(
            other,
            UpstreamFailure::Timeout,
        ) ==> server == other,
{
    reveal_strlit("upstream ");
    reveal_strlit(" query timeout");
    reveal_strlit(" query failed: ");
    let t = upstream_error(server, UpstreamFailure::Timeout);
    let f = upstream_error(server, UpstreamFailure::Failed(e));
    assert(t.take(9) =~= "upstream "@);
    assert(f.take(9) =~= "upstream "@);
    assert(t.subrange(9, 9 + server.len() as int) =~= server);
    assert(f.subrange(9, 9 + server.len() as int) =~= server);
    assert(t.skip(9 + server.len() as int) =~= " query timeout"@);
    assert(f.skip(24 + server.len() as int) =~= e@);
    assert(f.subrange(9 + server.len() as int, 24 + server.len() as int) =~= " query failed: "@);
    let o = upstream_error(other, UpstreamFailure::Timeout);
    if t == o {
        assert(o.len() == other.len() + 23);
        assert(o.subrange(9, 9 + other.len() as int) =~= other);
    }
}

/// The servers of the system are asked where it names any, as it names them; otherwise the fallback.
/// There is always a server.
pub proof fn which_servers_are_asked(system: Vec<SocketAddr>, res: Vec<SocketAddr>)
    requires
        call_ensures(upstream_name_servers, (&system,), res),
    ensures
        system@.len() > 0 ==> res@ == system@,
        system@.len() == 0 ==> res@.len() == 2 && res@[0].ip == IpAddr::V4(
            Ipv4Addr { bits: 0x0808_0808 },
        ) && res@[1].ip == IpAddr::V4(Ipv4Addr { bits: 0x0101_0101 }),
        res@.len() > 0,
{
    the_fallback_is_two_public_servers();
}

/// What is relayed to the client is taken by it, through the service and back: a client gets the bytes
/// of the upstream server where there are any, and nothing of an error.
pub proof fn the_answer_reaches_the_client(
    service: MagicDnsForwardService,
    relayed: Result<Vec<u8>, String>,
    resp: ResolveDnsResponse,
    taken: Option<Vec<u8>>,
)
    requires
        call_ensures(MagicDnsForwardService::resolve_dns, (&service, relayed), resp),
        call_ensures(resolve_dns_via_exit_node, (Some(resp),), taken),
        relayed matches Err(e) ==> e@.len() > 0,
    ensures
        relayed matches Ok(bytes) ==> (taken is Some <==> bytes@.len() > 0),
        relayed matches Ok(bytes) ==> (taken matches Some(got) ==> got@ == bytes@),
        relayed is Err ==> taken is None,
{
}

/// Only an empty query is refused.
pub proof fn only_an_empty_query_is_refused(
    service: MagicDnsForwardService,
    query: &[u8],
    res: Option<ResolveDnsResponse>,
)
    requires
        call_ensures(MagicDnsForwardService::refuse_query, (&service, query), res),
    ensures
        query@.len() > 0 ==> res is None,
        query@.len() == 0 ==> (res matches Some(resp) && resp.response@.len() == 0 && resp.error@
            == "empty dns query"@),
{
}

/// A query has a server to go through, and no more servers failed than there are; the next one is asked
/// as long as one is left.
pub proof fn servers_are_asked_one_after_the_other(relay: UpstreamRelay, next: Option<usize>)
    requires
        relay.wf(),
        call_ensures(UpstreamRelay::next, (&relay,), next),
    ensures
        relay.servers@.len() > 0,
        relay.failed <= relay.servers@.len(),
        next is None <==> relay.failed == relay.servers@.len(),
        next matches Some(i) ==> i == relay.failed && i < relay.servers@.len(),
{
}

/// How long a server and an exit node may take, and how long an answer may be.
pub proof fn limits_of_the_forwarding()
    ensures
        UPSTREAM_QUERY_TIMEOUT_SECS == 5,
        EXIT_NODE_RPC_TIMEOUT_SECS == 5,
        MAX_DNS_RESPONSE_SIZE == 4096,
{
}

} // verus!
