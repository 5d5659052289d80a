//! The listener and its peers: who is known, whose handshake is confirmed, who is dropped.
use crate::clock::{since, Instant, NANOS_PER_SEC};
use crate::collections::lists;
use crate::net::{endpoint_key, EndpointKey, SocketAddr};
use crate::text::copy_text;
use crate::wireguard::config::WgConfig;
use dashmap::DashMap;
use vstd::prelude::*;

verus! {

/// How long a peer may take to confirm its handshake.
pub const WG_PEER_HANDSHAKE_TIMEOUT_SECS: u64 = 5;

/// How long a peer may be silent.
pub const WG_PEER_IDLE_TIMEOUT_SECS: u64 = 61;

/// How often the peers are looked through.
pub const WG_PEER_SWEEP_SECS: u64 = 1;

/// What the listener knows of one peer.
#[derive(Clone, Copy, Debug, PartialEq, Eq, Structural)]
pub struct WgPeer {
    pub created_at: Instant,
    pub access_time: Instant,
    /// The session was seen established.
    pub handshake_established: bool,
    /// An encrypted packet of the peer was accepted.
    pub data_confirmed: bool,
    /// The tunnel was handed out.
    pub delivered: bool,
    /// A tunnel waits to be handed out.
    pub tunnel_pending: bool,
    /// The tunnel's tasks have ended.
    pub stopped: bool,
    /// Datagrams received, modulo the size of the counter.
    pub recv_packets: usize,
}

impl WgPeer {
    /// A peer first heard of at `now`, with its tunnel held back.
    pub open spec fn fresh(now: Instant) -> WgPeer {
        WgPeer {
            created_at: now,
            access_time: now,
            handshake_established: false,
            data_confirmed: false,
            delivered: false,
            tunnel_pending: true,
            stopped: false,
            recv_packets: 0,
        }
    }

    /// The handshake is confirmed in both directions.
    pub open spec fn confirmed(self) -> bool {
        self.handshake_established && self.data_confirmed
    }

    /// The tunnel was handed out at most once, and only after the handshake was confirmed.
    pub open spec fn valid(self) -> bool {
        &&& self.delivered ==> self.confirmed() && !self.tunnel_pending
        &&& !self.delivered ==> self.tunnel_pending
    }

    /// Whether the peer stays at `now`: its handshake is confirmed or still has time, it was heard
    /// of lately, and its tunnel has not ended.
    pub open spec fn stays(self, now: Instant) -> bool {
        &&& self.confirmed() || since(now, self.created_at) < WG_PEER_HANDSHAKE_TIMEOUT_SECS
            * NANOS_PER_SEC
        &&& since(now, self.access_time) < WG_PEER_IDLE_TIMEOUT_SECS * NANOS_PER_SEC
        &&& !self.stopped
    }

    /// A peer first heard of at `now`.
    pub fn new(now: Instant) -> (peer: WgPeer)
        ensures
            peer == WgPeer::fresh(now),
            peer.valid(),
    {
        WgPeer {
            created_at: now,
            access_time: now,
            handshake_established: false,
            data_confirmed: false,
            delivered: false,
            tunnel_pending: true,
            stopped: false,
            recv_packets: 0,
        }
    }

    /// Whether the handshake is confirmed in both directions.
    pub fn is_handshake_confirmed(&self) -> (res: bool)
        ensures
            res == self.confirmed(),
            res == (self.handshake_established && self.data_confirmed),
    {
        self.handshake_established && self.data_confirmed
    }

    /// Whether the tunnel was handed out.
    pub fn is_delivered(&self) -> (res: bool)
        ensures
            res == self.delivered,
    {
        self.delivered
    }

    /// How many datagrams were received.
    pub fn recv_packet_count(&self) -> (res: usize)
        ensures
            res == self.recv_packets,
    {
        self.recv_packets
    }

    /// A datagram came in at `now`.
    pub fn note_received(&mut self, now: Instant)
        ensures
            *final(self) == (WgPeer {
                access_time: now,
                recv_packets: if old(self).recv_packets == usize::MAX {
                    0
                } else {
                    (old(self).recv_packets + 1) as usize
                },
                ..*old(self)
            }),
    {
        self.access_time = now;
        self.recv_packets = self.recv_packets.wrapping_add(1);
    }

    /// A datagram was handled: `data_accepted` says that it proved that the peer can encrypt,
    /// `session_established` what the engine says of the session. Marks are set, never taken back.
    pub fn note_handled(&mut self, data_accepted: bool, session_established: bool)
        ensures
            *final(self) == (WgPeer {
                data_confirmed: old(self).data_confirmed || data_accepted,
                handshake_established: old(self).handshake_established || session_established,
                ..*old(self)
            }),
    {
        if data_accepted {
            self.data_confirmed = true;
        }
        if !self.handshake_established && session_established {
            self.handshake_established = true;
        }
    }

    /// Whether the tunnel is to be handed out now. It is said once, and only when the handshake is
    /// confirmed.
    pub fn take_tunnel_if_confirmed(&mut self) -> (res: bool)
        ensures
            res == (!old(self).delivered && old(self).confirmed() && old(self).tunnel_pending),
            res == (!old(self).delivered && old(self).handshake_established && old(
                self,
            ).data_confirmed && old(self).tunnel_pending),
            *final(self) == (if res {
                WgPeer { delivered: true, tunnel_pending: false, ..*old(self) }
            } else {
                *old(self)
            }),
    {
        if self.delivered || !self.is_handshake_confirmed() || !self.tunnel_pending {
            return false;
        }
        self.tunnel_pending = false;
        self.delivered = true;
        true
    }

    /// Marks the tunnel as ended.
    pub fn stop(&mut self)
        ensures
            *final(self) == (WgPeer { stopped: true, ..*old(self) }),
    {
        self.stopped = true;
    }

    /// Whether the peer stays at `now`.
    pub fn is_retained(&self, now: Instant) -> (res: bool)
        ensures
            res == self.stays(now),
            res <==> !self.stopped && now.nanos - self.access_time.nanos < 61_000_000_000 && ((
            self.handshake_established && self.data_confirmed) || now.nanos - self.created_at.nanos
                < 5_000_000_000),
    {
        if !self.is_handshake_confirmed() && self.created_at.elapsed(now).nanos
            >= WG_PEER_HANDSHAKE_TIMEOUT_SECS * NANOS_PER_SEC {
            return false;
        }
        self.access_time.elapsed(now).nanos < WG_PEER_IDLE_TIMEOUT_SECS * NANOS_PER_SEC
            && !self.stopped
    }
}

/// What the map of peers holds.
pub uninterp spec fn wg_peers(map: DashMap<EndpointKey, WgPeer>) -> Map<EndpointKey, WgPeer>;

/// `DashMap::new`: an empty map.
#[verifier::external_body]
fn wg_peers_new() -> (res: DashMap<EndpointKey, WgPeer>)
    ensures
        wg_peers(res).dom() == Set::<EndpointKey>::empty(),
{
    DashMap::new()
}

/// `DashMap::get`, of which the value is copied out.
#[verifier::external_body]
fn wg_peers_get(map: &DashMap<EndpointKey, WgPeer>, key: EndpointKey) -> (res: Option<WgPeer>)
    ensures
        res == (if wg_peers(*map).dom().contains(key) {
            Some(wg_peers(*map)[key])
        } else {
            None
        }),
{
    map.get(&key).map(|entry| *entry.value())
}

/// `DashMap::insert`: the key has the new value, everything else stays.
#[verifier::external_body]
fn wg_peers_insert(map: &mut DashMap<EndpointKey, WgPeer>, key: EndpointKey, peer: WgPeer)
    ensures
        wg_peers(*final(map)) == wg_peers(*old(map)).insert(key, peer),
{
    map.insert(key, peer);
}

/// `DashMap::remove`: the key is gone, everything else stays.
#[verifier::external_body]
fn wg_peers_remove(map: &mut DashMap<EndpointKey, WgPeer>, key: EndpointKey)
    ensures
        wg_peers(*final(map)) == wg_peers(*old(map)).remove(key),
{
    map.remove(&key);
}

/// `DashMap::iter`, of which the keys are collected: each key once, in the order of the shards.
#[verifier::external_body]
fn wg_peers_keys(map: &DashMap<EndpointKey, WgPeer>) -> (keys: Vec<EndpointKey>)
    ensures
        lists(keys@, wg_peers(*map).dom()),
{
    map.iter().map(|entry| *entry.key()).collect()
}

/// A listener and its peers, by address.
pub struct WgTunnelListener {
    pub addr: String,
    pub config: WgConfig,
    pub peers: DashMap<EndpointKey, WgPeer>,
}

impl View for WgTunnelListener {
    type V = Map<EndpointKey, WgPeer>;

    open spec fn view(&self) -> Map<EndpointKey, WgPeer> {
        wg_peers(self.peers)
    }
}

impl WgTunnelListener {
    /// Every peer is valid.
    pub open spec fn wf(self) -> bool {
        forall|k: EndpointKey| #[trigger] self@.dom().contains(k) ==> self@[k].valid()
    }

    /// The listener stands at the same address with the same configuration.
    pub open spec fn same_setup(self, other: WgTunnelListener) -> bool {
        self.addr == other.addr && self.config == other.config
    }

    /// A listener at `addr` that has no peers yet.
    pub fn new(addr: String, config: WgConfig) -> (listener: WgTunnelListener)
        ensures
            listener.addr == addr,
            listener.config == config,
            listener@ == Map::<EndpointKey, WgPeer>::empty(),
            listener.wf(),
    {
        WgTunnelListener { addr, config, peers: wg_peers_new() }
    }

    /// The URL that the listener listens at.
    pub fn local_url(&self) -> (url: String)
        ensures
            url@ == self.addr@,
    {
        copy_text(self.addr.as_str())
    }

    /// What is known of the peer at `addr`.
    pub fn get(&self, addr: SocketAddr) -> (res: Option<WgPeer>)
        ensures
            res == (if self@.dom().contains(endpoint_key(addr)) {
                Some(self@[endpoint_key(addr)])
            } else {
                None
            }),
    {
        wg_peers_get(&self.peers, addr.key())
    }

    /// A datagram came from `addr`. A sender that is not known becomes a peer, and the result says
    /// so: its tunnel is then set up and held back, and junk is sent to it.
    pub fn welcome(&mut self, addr: SocketAddr, now: Instant) -> (is_new: bool)
        requires
            old(self).wf(),
        ensures
            final(self).wf(),
            final(self).same_setup(*old(self)),
            is_new == !old(self)@.dom().contains(endpoint_key(addr)),
            final(self)@ == (if is_new {
                old(self)@.insert(endpoint_key(addr), WgPeer::fresh(now))
            } else {
                old(self)@
            }),
    {
        match wg_peers_get(&self.peers, addr.key()) {
            Some(_) => false,
            None => {
                let ghost before = self@;
                wg_peers_insert(&mut self.peers, addr.key(), WgPeer::new(now));
                proof {
                    lemma_insert_keeps_valid(before, endpoint_key(addr), WgPeer::fresh(now));
                }
                true
            },
        }
    }

    /// A datagram from `addr` starts to be handled. False where the peer was dropped meanwhile: the
    /// datagram is dropped too.
    pub fn note_received(&mut self, addr: SocketAddr, now: Instant) -> (known: bool)
        requires
            old(self).wf(),
        ensures
            final(self).wf(),
            final(self).same_setup(*old(self)),
            known == old(self)@.dom().contains(endpoint_key(addr)),
            !known ==> final(self)@ == old(self)@,
            known ==> final(self)@ == old(self)@.insert(
                endpoint_key(addr),
                after_receipt(old(self)@[endpoint_key(addr)], now),
            ),
    {
        match wg_peers_get(&self.peers, addr.key()) {
            None => false,
            Some(peer) => {
                let mut peer = peer;
                peer.note_received(now);
                proof {
                    lemma_insert_keeps_valid(self@, endpoint_key(addr), peer);
                }
                wg_peers_insert(&mut self.peers, addr.key(), peer);
                true
            },
        }
    }

    /// A datagram from `addr` was handled. The result says whether the peer's tunnel is to be
    /// handed out now.
    pub fn note_handled(
        &mut self,
        addr: SocketAddr,
        data_accepted: bool,
        session_established: bool,
    ) -> (deliver: bool)
        requires
            old(self).wf(),
        ensures
            final(self).wf(),
            final(self).same_setup(*old(self)),
            !old(self)@.dom().contains(endpoint_key(addr)) ==> !deliver && final(self)@ == old(
                self,
            )@,
            old(self)@.dom().contains(endpoint_key(addr)) ==> {
                let before = old(self)@[endpoint_key(addr)];
                let after = after_handling(before, data_accepted, session_established);
                &&& deliver == (!before.delivered && after.delivered)
                &&& final(self)@ == old(self)@.insert(endpoint_key(addr), after)
                &&& deliver <==> !before.delivered && (before.data_confirmed || data_accepted) && (
                before.handshake_established || session_established)
            },
    {
        match wg_peers_get(&self.peers, addr.key()) {
            None => false,
            Some(peer) => {
                let mut peer = peer;
                peer.note_handled(data_accepted, session_established);
                let deliver = peer.take_tunnel_if_confirmed();
                proof {
                    lemma_insert_keeps_valid(self@, endpoint_key(addr), peer);
                }
                wg_peers_insert(&mut self.peers, addr.key(), peer);
                deliver
            },
        }
    }

    /// The tasks of the peer's tunnel have ended.
    pub fn note_stopped(&mut self, addr: SocketAddr)
        requires
            old(self).wf(),
        ensures
            final(self).wf(),
            final(self).same_setup(*old(self)),
            final(self)@ == (if old(self)@.dom().contains(endpoint_key(addr)) {
                old(self)@.insert(
                    endpoint_key(addr),
                    WgPeer { stopped: true, ..old(self)@[endpoint_key(addr)] },
                )
            } else {
                old(self)@
            }),
    {
        match wg_peers_get(&self.peers, addr.key()) {
            None => {},
            Some(peer) => {
                let mut peer = peer;
                peer.stop();
                wg_peers_insert(&mut self.peers, addr.key(), peer);
            },
        }
    }

    /// Drops the peers that do not stay at `now` and gives their keys.
    pub fn sweep(&mut self, now: Instant) -> (dropped: Vec<EndpointKey>)
        requires
            old(self).wf(),
        ensures
            final(self).wf(),
            final(self).same_setup(*old(self)),
            final(self)@ == swept(old(self)@, now),
            lists(dropped@, old(self)@.dom().difference(final(self)@.dom())),
    {
        let keys = wg_peers_keys(&self.peers);
        let mut dropped: Vec<EndpointKey> = Vec::new();
        let ghost before = self@;
        let mut i: usize = 0;
        while i < keys.len()
            invariant
                i <= keys@.len(),
                lists(keys@, before.dom()),
                before == old(self)@,
                self.same_setup(*old(self)),
                forall|k: EndpointKey| #[trigger]
                    self@.dom().contains(k) <==> before.dom().contains(k) && !dropped@.contains(k),
                forall|k: EndpointKey| #[trigger] self@.dom().contains(k) ==> self@[k] == before[k],
                forall|k: EndpointKey| #[trigger]
                    dropped@.contains(k) ==> keys@.take(i as int).contains(k) && !before[k].stays(
                        now,
                    ),
                forall|j: int| #![trigger keys@[j]]
                    0 <= j < i && !before[keys@[j]].stays(now) ==> dropped@.contains(keys@[j]),
                dropped@.no_duplicates(),
            decreases keys@.len() - i,
        {
            let key = keys[i];
            assert(keys@.contains(keys@[i as int]));
            proof {
                if keys@.take(i as int).contains(key) {
                    let j = choose|j: int| 0 <= j < i && keys@.take(i as int)[j] == key;
                    assert(keys@[j] == keys@[i as int]);
                }
                assert(!dropped@.contains(key));
                assert(self@.dom().contains(key));
            }
            let ghost dropped0 = dropped@;
            let ghost i0 = i as int;
            if let Some(peer) = wg_peers_get(&self.peers, key) {
                if !peer.is_retained(now) {
                    wg_peers_remove(&mut self.peers, key);
                    dropped.push(key);
                }
            }
            i = i + 1;
            proof {
                assert(keys@.take(i as int) =~= keys@.take(i0).push(key));
                assert forall|k: EndpointKey| #[trigger] dropped@.contains(k) implies keys@.take(
                    i as int,
                ).contains(k) && !before[k].stays(now) by {
                    if k == key && !dropped0.contains(k) {
                        assert(keys@.take(i as int)[i0] == key);
                    } else {
                        assert(dropped0.contains(k));
                        let j = choose|j: int| 0 <= j < i0 && keys@.take(i0)[j] == k;
                        assert(keys@.take(i as int)[j] == k);
                    }
                }
                assert(forall|k: EndpointKey| #[trigger]
                    dropped@.contains(k) <==> dropped0.contains(k) || (dropped@.len()
                        > dropped0.len() && k == key)) by {
                    assert forall|k: EndpointKey| dropped0.contains(k) implies #[trigger]
                        dropped@.contains(k) by {
                        let j = choose|j: int| 0 <= j < dropped0.len() && dropped0[j] == k;
                        assert(dropped@[j] == k);
                    }
                    if dropped@.len() > dropped0.len() {
                        assert(dropped@[dropped0.len() as int] == key);
                    }
                }
            }
        }
        proof {
            assert forall|k: EndpointKey| #[trigger] self@.dom().contains(k) implies before[k].stays(
                now,
            ) by {
                assert(keys@.contains(k));
                let j = choose|j: int| 0 <= j < keys@.len() && keys@[j] == k;
                assert(!before[keys@[j]].stays(now) ==> dropped@.contains(keys@[j]));
            }
            assert(self@ =~= swept(before, now));
            assert forall|k: EndpointKey|
                #[trigger] before.dom().difference(self@.dom()).contains(k) <==> dropped@.contains(
                    k,
                ) by {
                if dropped@.contains(k) {
                    let j = choose|j: int|
                        0 <= j < keys@.len() && keys@.take(keys@.len() as int)[j] == k;
                    assert(keys@.contains(k));
                }
            }
        }
        dropped
    }
}

/// A valid peer put among valid peers leaves them valid.
proof fn lemma_insert_keeps_valid(peers: Map<EndpointKey, WgPeer>, key: EndpointKey, peer: WgPeer)
    requires
        forall|k: EndpointKey| #[trigger] peers.dom().contains(k) ==> peers[k].valid(),
        peer.valid(),
    ensures
        forall|k: EndpointKey| #[trigger]
            peers.insert(key, peer).dom().contains(k) ==> peers.insert(key, peer)[k].valid(),
{
}

/// A peer after a datagram came in.
pub open spec fn after_receipt(peer: WgPeer, now: Instant) -> WgPeer {
    WgPeer {
        access_time: now,
        recv_packets: if peer.recv_packets == usize::MAX {
            0
        } else {
            (peer.recv_packets + 1) as usize
        },
        ..peer
    }
}

/// A peer after a datagram was handled, its tunnel handed out if its time has come.
pub open spec fn after_handling(
    peer: WgPeer,
    data_accepted: bool,
    session_established: bool,
) -> WgPeer {
    let marked = WgPeer {
        data_confirmed: peer.data_confirmed || data_accepted,
        handshake_established: peer.handshake_established || session_established,
        ..peer
    };
    if !marked.delivered && marked.confirmed() && marked.tunnel_pending {
        WgPeer { delivered: true, tunnel_pending: false, ..marked }
    } else {
        marked
    }
}

/// The peers that stay at `now`.
pub open spec fn swept(peers: Map<EndpointKey, WgPeer>, now: Instant) -> Map<EndpointKey, WgPeer> {
    peers.restrict(peers.dom().filter(|k: EndpointKey| peers[k].stays(now)))
}

/// A tunnel is handed out at most once: after it was, handling a datagram never hands it out again.
pub proof fn a_tunnel_is_handed_out_once(
    peer: WgPeer,
    first: (bool, bool),
    second: (bool, bool),
)
    requires
        peer.valid(),
    ensures
        after_handling(peer, first.0, first.1).valid(),
        after_handling(peer, first.0, first.1).delivered ==> after_handling(
            after_handling(peer, first.0, first.1),
            second.0,
            second.1,
        ).delivered,
        after_handling(peer, first.0, first.1).delivered && !peer.delivered ==> peer.tunnel_pending,
{
}

/// A half-open peer is gone once its time is over, however many datagrams it sends.
pub proof fn half_open_peers_do_not_stay(
    peers: Map<EndpointKey, WgPeer>,
    key: EndpointKey,
    now: Instant,
)
    requires
        peers.dom().contains(key),
        !peers[key].confirmed(),
        since(now, peers[key].created_at) >= WG_PEER_HANDSHAKE_TIMEOUT_SECS * NANOS_PER_SEC,
    ensures
        !swept(peers, now).dom().contains(key),
{
}

/// A peer with a confirmed handshake that was heard of within the idle limit stays as it is.
pub proof fn active_peers_stay(peers: Map<EndpointKey, WgPeer>, key: EndpointKey, now: Instant)
    requires
        peers.dom().contains(key),
        peers[key].confirmed(),
        !peers[key].stopped,
        since(now, peers[key].access_time) < WG_PEER_IDLE_TIMEOUT_SECS * NANOS_PER_SEC,
    ensures
        swept(peers, now).dom().contains(key),
        swept(peers, now)[key] == peers[key],
{
}

/// Which peers stay, in nanoseconds: one that is not stopped, that was heard of less than 61 seconds
/// ago, and whose handshake is confirmed in both directions or began less than 5 seconds ago. A time
/// that lies ahead counts as now.
pub proof fn who_stays(peer: WgPeer, now: Instant)
    ensures
        peer.stays(now) <==> {
            &&& !peer.stopped
            &&& now.nanos - peer.access_time.nanos < 61_000_000_000
            &&& (peer.handshake_established && peer.data_confirmed) || now.nanos
                - peer.created_at.nanos < 5_000_000_000
        },
{
}

/// A new peer has nothing confirmed, its tunnel is held back, and both of its times are now.
pub proof fn a_new_peer_has_its_tunnel_held_back(now: Instant)
    ensures
        WgPeer::fresh(now).created_at == now,
        WgPeer::fresh(now).access_time == now,
        !WgPeer::fresh(now).handshake_established,
        !WgPeer::fresh(now).data_confirmed,
        !WgPeer::fresh(now).delivered,
        WgPeer::fresh(now).tunnel_pending,
        !WgPeer::fresh(now).stopped,
        WgPeer::fresh(now).recv_packets == 0,
{
}

/// A datagram is counted and its time is noted. It changes nothing else: it neither confirms the
/// handshake nor gives a half-open peer more time.
pub proof fn a_datagram_is_counted(peer: WgPeer, now: Instant)
    ensures
        after_receipt(peer, now).access_time == now,
        peer.recv_packets < usize::MAX ==> after_receipt(peer, now).recv_packets
            == peer.recv_packets + 1,
        peer.recv_packets == usize::MAX ==> after_receipt(peer, now).recv_packets == 0,
        after_receipt(peer, now).created_at == peer.created_at,
        after_receipt(peer, now).handshake_established == peer.handshake_established,
        after_receipt(peer, now).data_confirmed == peer.data_confirmed,
        after_receipt(peer, now).delivered == peer.delivered,
        after_receipt(peer, now).tunnel_pending == peer.tunnel_pending,
        after_receipt(peer, now).stopped == peer.stopped,
{
}

/// Marks are set and never taken back. The tunnel of a valid peer is handed out with the datagram
/// that completes them: an established session alone is not enough, and neither is accepted data
/// alone.
pub proof fn the_tunnel_is_handed_out_once_both_marks_are_set(
    peer: WgPeer,
    data_accepted: bool,
    session_established: bool,
)
    requires
        peer.valid(),
    ensures
        ({
            let after = after_handling(peer, data_accepted, session_established);
            &&& after.data_confirmed <==> peer.data_confirmed || data_accepted
            &&& after.handshake_established <==> peer.handshake_established || session_established
            &&& after.delivered <==> (peer.data_confirmed || data_accepted) && (
            peer.handshake_established || session_established)
            &&& after.tunnel_pending <==> !after.delivered
            &&& after.created_at == peer.created_at
            &&& after.access_time == peer.access_time
            &&& after.stopped == peer.stopped
            &&& after.recv_packets == peer.recv_packets
        }),
{
    if peer.delivered {
        assert(peer.confirmed());
    }
}

/// A valid peer is one whose tunnel is either held back or handed out, and handed out only after
/// both marks were set.
pub proof fn valid_peers_have_one_tunnel(peer: WgPeer)
    requires
        peer.valid(),
    ensures
        peer.delivered <==> !peer.tunnel_pending,
        peer.delivered ==> peer.handshake_established && peer.data_confirmed,
{
}

/// The sweep drops exactly the peers that do not stay, and leaves the others as they are.
pub proof fn the_sweep_drops_who_does_not_stay(
    peers: Map<EndpointKey, WgPeer>,
    key: EndpointKey,
    now: Instant,
)
    ensures
        swept(peers, now).dom().contains(key) <==> peers.dom().contains(key) && !peers[key].stopped
            && now.nanos - peers[key].access_time.nanos < 61_000_000_000 && ((
        peers[key].handshake_established && peers[key].data_confirmed) || now.nanos
            - peers[key].created_at.nanos < 5_000_000_000),
        swept(peers, now).dom().contains(key) ==> swept(peers, now)[key] == peers[key],
{
}

/// The listener stays where it is, with what it was set up with.
pub proof fn what_stays_of_a_listener(a: WgTunnelListener, b: WgTunnelListener)
    ensures
        a.same_setup(b) <==> a.addr == b.addr && a.config == b.config,
        a.wf() <==> forall|k: EndpointKey| #[trigger] a@.dom().contains(k) ==> a@[k].valid(),
{
}

/// How long a half-open and a silent peer stay, and how often the peers are looked through.
pub proof fn times_of_the_listener()
    ensures
        WG_PEER_HANDSHAKE_TIMEOUT_SECS == 5,
        WG_PEER_IDLE_TIMEOUT_SECS == 61,
        WG_PEER_SWEEP_SECS == 1,
{
}

} // verus!
