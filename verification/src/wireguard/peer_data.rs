//! Packets on their way through one WireGuard tunnel.
use crate::clock::{Duration, NANOS_PER_MILLI};
use crate::random::random_u32;
use crate::wireguard::config::{WgConfig, WgType};
use crate::wireguard::obfs::{WgObfsConfig, WG_HANDSHAKE_INIT_SIZE, WG_HANDSHAKE_RESPONSE_SIZE};
use crate::wireguard::packet::{
    carries, datagram_for_peer, decode_wg_packet, decoded, padded, padding_len, Decoded, JunkReason,
    WgDecodedPacket, WG_MSG_DATA,
};
use crate::wireguard::tunn::{
    handshake_after, is_data, is_exhausted, is_init, is_response, open_datagram, opening_gives,
    queue_after,
    queue_after_next, timers_give, tunn_encapsulate, tunn_handshake_init, tunn_has_session,
    tunn_in_handshake, tunn_keys, tunn_new, tunn_queue, tunn_session_established,
    tunn_update_timers, wg_sealed, with_queued, Outcome, TunnOutcome, MAX_PACKET,
    WG_DATA_OVERHEAD, WG_QUEUE_DEPTH,
};
use boringtun_easytier::noise::Tunn;
use vstd::prelude::*;

verus! {

/// Size of the header in front of a message between nodes: an IPv4 header.
pub const WG_TUNNEL_HEADER_SIZE: usize = 20;

/// Size of an IPv6 header.
pub const IPV6_HEADER_SIZE: usize = 40;

/// The IPv4 header that is put in front of `len` bytes: version 4, five words, the total length
/// modulo 2^16, 64 hops, everything else zero.
pub open spec fn ip_header(len: int) -> Seq<u8> {
    let total = (len + 20) % 0x1_0000;
    seq![
        0x45u8,
        0u8,
        (total / 0x100) as u8,
        (total % 0x100) as u8,
        0u8,
        0u8,
        0u8,
        0u8,
        64u8,
        0u8,
        0u8,
        0u8,
        0u8,
        0u8,
        0u8,
        0u8,
        0u8,
        0u8,
        0u8,
        0u8,
    ]
}

/// Fills in the IPv4 header at the start of `packet`, whose content behind it is `len` bytes.
pub fn fill_ip_header(packet: &mut Vec<u8>, len: usize)
    requires
        old(packet)@.len() >= WG_TUNNEL_HEADER_SIZE,
        len + 20 <= usize::MAX,
    ensures
        final(packet)@ == ip_header(len as int) + old(packet)@.skip(WG_TUNNEL_HEADER_SIZE as int),
        final(packet)@.len() == old(packet)@.len(),
        final(packet)@[0] == 0x45,
        final(packet)@[2] * 256 + final(packet)@[3] == (len + 20) % 65536,
        final(packet)@[8] == 64,
        forall|k: int|
            0 <= k < 20 && k != 0 && k != 2 && k != 3 && k != 8 ==> #[trigger] final(packet)@[k]
                == 0,
        forall|k: int|
            20 <= k < final(packet)@.len() ==> #[trigger] final(packet)@[k] == old(packet)@[k],
{
    let total: usize = (len + 20) % 0x1_0000;
    packet.set(0, 0x45);
    packet.set(1, 0);
    packet.set(2, (total / 0x100) as u8);
    packet.set(3, (total % 0x100) as u8);
    packet.set(8, 64);
    packet.set(9, 0);
    let ghost before = *packet;
    let mut i: usize = 4;
    while i < 20
        invariant
            4 <= i <= 20,
            packet@.len() == before@.len(),
            packet@.len() >= 20,
            forall|k: int|
                0 <= k < packet@.len() ==> packet@[k] == (if 4 <= k < i && k != 8 {
                    0u8
                } else {
                    before@[k]
                }),
        decreases 20 - i,
    {
        if i != 8 {
            packet.set(i, 0);
        }
        i = i + 1;
    }
    assert(packet@ =~= ip_header(len as int) + old(packet)@.skip(WG_TUNNEL_HEADER_SIZE as int));
}

/// The packet behind its IP header.
pub fn remove_ip_header<'a>(packet: &'a [u8], is_v4: bool) -> (inner: &'a [u8])
    requires
        packet@.len() >= (if is_v4 {
            WG_TUNNEL_HEADER_SIZE
        } else {
            IPV6_HEADER_SIZE
        }),
    ensures
        inner@ == packet@.skip(
            if is_v4 {
                20
            } else {
                40
            },
        ),
{
    let start: usize = if is_v4 {
        20
    } else {
        40
    };
    let inner = vstd::slice::slice_subrange(packet, start, packet.len());
    assert(inner@ =~= packet@.skip(start as int));
    inner
}

/// What is handed to the engine for a packet from this node.
pub open spec fn outbound(wg_type: WgType, packet: Seq<u8>, len: int) -> Seq<u8> {
    match wg_type {
        WgType::InternalUse => ip_header(len) + packet.skip(WG_TUNNEL_HEADER_SIZE as int),
        WgType::ExternalUse => packet,
    }
}

/// Prepares a packet from this node for the engine. A message between nodes starts with room for
/// the header; `len` is the length of its content.
pub fn prepare_outbound(wg_type: WgType, packet: Vec<u8>, len: usize) -> (res: Vec<u8>)
    requires
        wg_type == WgType::InternalUse ==> packet@.len() >= WG_TUNNEL_HEADER_SIZE && len + 20
            <= usize::MAX,
    ensures
        res@ == outbound(wg_type, packet@, len as int),
        res@.len() == packet@.len(),
        wg_type == WgType::ExternalUse ==> res@ == packet@,
        wg_type == WgType::InternalUse ==> res@[0] == 0x45 && res@[2] * 256 + res@[3] == (len + 20)
            % 65536,
        wg_type == WgType::InternalUse ==> forall|k: int|
            20 <= k < res@.len() ==> #[trigger] res@[k] == packet@[k],
{
    let mut packet = packet;
    match wg_type {
        WgType::InternalUse => {
            fill_ip_header(&mut packet, len);
        },
        WgType::ExternalUse => {},
    }
    packet
}

/// Whether an IP packet starts with the version number 4.
pub open spec fn is_ipv4(packet: Seq<u8>) -> bool {
    packet[0] / 16 == 4
}

/// What an IP packet from the peer becomes: the tunnel header, zeroed, and the content behind the
/// IP header; for a client of the portal the packet itself. None where a message between nodes is
/// shorter than its IP header.
pub open spec fn inbound(wg_type: WgType, packet: Seq<u8>) -> Option<Seq<u8>> {
    match wg_type {
        WgType::ExternalUse => Some(packet),
        WgType::InternalUse => {
            let header: int = if is_ipv4(packet) {
                20
            } else {
                40
            };
            if packet.len() == 0 || packet.len() < header {
                None
            } else {
                Some(Seq::new(WG_TUNNEL_HEADER_SIZE as nat, |i: int| 0u8) + packet.skip(header))
            }
        },
    }
}

/// Turns an IP packet from the peer into what the tunnel carries on.
pub fn accept_inbound(wg_type: WgType, packet: Vec<u8>) -> (res: Option<Vec<u8>>)
    ensures
        match (res, inbound(wg_type, packet@)) {
            (Some(bytes), Some(expected)) => bytes@ == expected,
            (None, None) => true,
            _ => false,
        },
        wg_type == WgType::ExternalUse ==> (res matches Some(bytes) && bytes@ == packet@),
        wg_type == WgType::InternalUse && packet@.len() > 0 && 64 <= packet@[0] <= 79 ==> (res is Some
            <==> packet@.len() >= 20),
        wg_type == WgType::InternalUse && packet@.len() > 0 && !(64 <= packet@[0] <= 79) ==> (
        res is Some <==> packet@.len() >= 40),
        wg_type == WgType::InternalUse && packet@.len() == 0 ==> res is None,
{
    match wg_type {
        WgType::ExternalUse => Some(packet),
        WgType::InternalUse => {
            if packet.len() == 0 {
                return None;
            }
            let is_v4 = packet[0] / 16 == 4;
            let header: usize = if is_v4 {
                WG_TUNNEL_HEADER_SIZE
            } else {
                IPV6_HEADER_SIZE
            };
            if packet.len() < header {
                return None;
            }
            let mut bytes: Vec<u8> = vec![0u8; WG_TUNNEL_HEADER_SIZE];
            bytes.extend_from_slice(remove_ip_header(packet.as_slice(), is_v4));
            assert(bytes@ =~= Seq::new(WG_TUNNEL_HEADER_SIZE as nat, |i: int| 0u8) + packet@.skip(
                header as int,
            ));
            Some(bytes)
        },
    }
}

/// What to do about a datagram from the peer.
#[derive(Debug)]
pub enum FromPeer {
    /// Nothing. `accepted`: it proved that the peer can encrypt with this session.
    Nothing { accepted: bool },
    /// Send this message to the peer, then what waits in the queue.
    Reply(Vec<u8>),
    /// Forward these bytes to the tunnel.
    Forward(Vec<u8>),
    /// A message between nodes that is shorter than its IP header.
    Malformed,
}

/// What to do about a datagram from the peer, over sequences.
#[verifier::ext_equal]
pub ghost enum Reaction {
    Nothing { accepted: bool },
    Reply(Seq<u8>),
    Forward(Seq<u8>),
    Malformed,
}

impl Reaction {
    /// Whether the datagram proved that the peer can encrypt with this session.
    pub open spec fn accepted(self) -> bool {
        self is Forward || self == (Reaction::Nothing { accepted: true })
    }
}

impl View for FromPeer {
    type V = Reaction;

    open spec fn view(&self) -> Reaction {
        match *self {
            FromPeer::Nothing { accepted } => Reaction::Nothing { accepted },
            FromPeer::Reply(packet) => Reaction::Reply(packet@),
            FromPeer::Forward(bytes) => Reaction::Forward(bytes@),
            FromPeer::Malformed => Reaction::Malformed,
        }
    }
}

/// What follows from what the engine made of a message of the given type.
pub open spec fn reaction(wg_type: WgType, msg_type: u32, out: Outcome) -> Reaction {
    match out {
        Outcome::ToNetwork(packet) => Reaction::Reply(packet),
        Outcome::ToTunnelV4(packet) => match inbound(wg_type, packet) {
            Some(bytes) => Reaction::Forward(bytes),
            None => Reaction::Malformed,
        },
        Outcome::ToTunnelV6(packet) => match inbound(wg_type, packet) {
            Some(bytes) => Reaction::Forward(bytes),
            None => Reaction::Malformed,
        },
        Outcome::Done => Reaction::Nothing { accepted: msg_type == WG_MSG_DATA },
        Outcome::Failed { .. } => Reaction::Nothing { accepted: false },
    }
}

/// Decides what follows from what the engine made of a message of the given type.
pub fn react_to_decapsulated(wg_type: WgType, msg_type: u32, out: TunnOutcome) -> (res: FromPeer)
    ensures
        res@ == reaction(wg_type, msg_type, out@),
        out@ matches Outcome::ToNetwork(packet) ==> (res matches FromPeer::Reply(bytes) && bytes@
            == packet),
        out@ is Done ==> res == (FromPeer::Nothing { accepted: msg_type == 4 }),
        out@ is Failed ==> res == (FromPeer::Nothing { accepted: false }),
{
    match out {
        TunnOutcome::ToNetwork(packet) => FromPeer::Reply(packet),
        TunnOutcome::ToTunnelV4(packet) => match accept_inbound(wg_type, packet) {
            Some(bytes) => FromPeer::Forward(bytes),
            None => FromPeer::Malformed,
        },
        TunnOutcome::ToTunnelV6(packet) => match accept_inbound(wg_type, packet) {
            Some(bytes) => FromPeer::Forward(bytes),
            None => FromPeer::Malformed,
        },
        TunnOutcome::Done => FromPeer::Nothing { accepted: msg_type == WG_MSG_DATA },
        TunnOutcome::Failed { expired: _ } => FromPeer::Nothing { accepted: false },
    }
}

impl FromPeer {
    /// Whether the datagram proved that the peer can encrypt with this session.
    pub fn data_accepted(&self) -> (res: bool)
        ensures
            res == self@.accepted(),
    {
        match self {
            FromPeer::Nothing { accepted } => *accepted,
            FromPeer::Forward(_) => true,
            _ => false,
        }
    }
}

/// What to do at a tick of the timers.
#[derive(Debug)]
pub enum RoutineAction {
    /// Send this message to the peer.
    Send(Vec<u8>),
    /// Nothing but an error to report.
    Report,
    /// Wait before the next tick.
    Sleep(Duration),
}

/// What to do at a tick of the timers, over sequences.
#[verifier::ext_equal]
pub ghost enum Routine {
    Send(Seq<u8>),
    Report,
    Sleep(int),
}

impl View for RoutineAction {
    type V = Routine;

    open spec fn view(&self) -> Routine {
        match *self {
            RoutineAction::Send(packet) => Routine::Send(packet@),
            RoutineAction::Report => Routine::Report,
            RoutineAction::Sleep(d) => Routine::Sleep(d.nanos as int),
        }
    }
}

/// What follows from the engine's answer to a tick.
#[derive(Debug)]
pub enum RoutineStep {
    /// The connection has expired: ask for a new handshake, and go by the answer to that.
    Restart,
    /// Do this.
    Act(RoutineAction),
}

/// The answer says that the connection has expired.
pub open spec fn is_expired(out: Outcome) -> bool {
    out == (Outcome::Failed { expired: true })
}

/// What to do about the engine's answer to a tick, where the connection has not expired.
pub open spec fn routine_of(out: Outcome) -> Routine {
    match out {
        Outcome::ToNetwork(packet) => Routine::Send(packet),
        Outcome::Failed { .. } => Routine::Report,
        _ => Routine::Sleep(250 * NANOS_PER_MILLI),
    }
}

/// Decides what follows from the engine's answer to a tick.
pub fn after_tick(out: TunnOutcome) -> (res: RoutineStep)
    ensures
        match res {
            RoutineStep::Restart => is_expired(out@),
            RoutineStep::Act(action) => !is_expired(out@) && action@ == routine_of(out@),
        },
{
    match out {
        TunnOutcome::ToNetwork(packet) => RoutineStep::Act(RoutineAction::Send(packet)),
        TunnOutcome::Failed { expired } => {
            if expired {
                RoutineStep::Restart
            } else {
                RoutineStep::Act(RoutineAction::Report)
            }
        },
        _ => RoutineStep::Act(RoutineAction::Sleep(Duration::from_millis(250))),
    }
}

/// One WireGuard tunnel.
pub struct WgPeerData {
    pub tunn: Tunn,
    pub wg_type: WgType,
    pub obfs: Option<WgObfsConfig>,
}

impl WgPeerData {
    /// A tunnel with the given configuration and a random index.
    pub fn new(config: &WgConfig) -> (res: WgPeerData)
        ensures
            res.wg_type == config.wg_type,
            res.obfs == config.obfs,
            tunn_keys(res.tunn).0 == config.my_secret_key@,
            tunn_keys(res.tunn).1 == config.peer_public_key@,
            !tunn_has_session(res.tunn),
            !res.in_handshake(),
            res.queue() == Seq::<Seq<u8>>::empty(),
    {
        WgPeerData {
            tunn: tunn_new(&config.my_secret_key, &config.peer_public_key, random_u32()),
            wg_type: config.wg_type,
            obfs: config.obfs,
        }
    }

    /// The keys and options are those of `other`.
    pub open spec fn same_options(self, other: WgPeerData) -> bool {
        &&& self.wg_type == other.wg_type
        &&& self.obfs == other.obfs
        &&& tunn_keys(self.tunn) == tunn_keys(other.tunn)
    }

    /// Whether the tunnel has a current session.
    pub open spec fn established(self) -> bool {
        tunn_has_session(self.tunn)
    }

    /// Whether a handshake is in progress.
    pub open spec fn in_handshake(self) -> bool {
        tunn_in_handshake(self.tunn)
    }

    /// The packets that wait for a session, the oldest first.
    pub open spec fn queue(self) -> Seq<Seq<u8>> {
        tunn_queue(self.tunn)
    }

    /// The datagram that carries a message to the peer.
    pub fn datagram(&self, packet: &Vec<u8>) -> (wire: Vec<u8>)
        requires
            packet@.len() + 255 <= usize::MAX,
        ensures
            carries(wire@, packet@, self.obfs),
    {
        datagram_for_peer(packet, self.obfs)
    }

    /// Hands a packet from this node to the engine and gives the message to send, if any.
    /// Without a session the packet waits in the queue and a handshake is started.
    pub fn handle_one_packet_from_me(&mut self, packet: Vec<u8>, len: usize) -> (res: Option<
        Vec<u8>,
    >)
        requires
            packet@.len() + WG_DATA_OVERHEAD <= MAX_PACKET,
            old(self).wg_type == WgType::InternalUse ==> packet@.len() >= WG_TUNNEL_HEADER_SIZE
                && len + 20 <= usize::MAX,
        ensures
            final(self).same_options(*old(self)),
            final(self).established() == old(self).established(),
            old(self).established() ==> (res matches Some(wire) && is_data(wire@) && wire@.len()
                == packet@.len() + WG_DATA_OVERHEAD && wg_sealed(
                outbound(old(self).wg_type, packet@, len as int),
                wire@,
            )),
            !old(self).established() ==> (res is Some <==> !old(self).in_handshake()),
            !old(self).established() ==> (res matches Some(wire) ==> is_init(wire@)),
            !old(self).established() ==> final(self).in_handshake(),
            old(self).established() ==> final(self).in_handshake() == old(self).in_handshake(),
            final(self).queue() == queue_after(
                old(self).queue(),
                outbound(old(self).wg_type, packet@, len as int),
                old(self).established(),
            ),
    {
        let prepared = prepare_outbound(self.wg_type, packet, len);
        let out = tunn_encapsulate(&mut self.tunn, &prepared, MAX_PACKET);
        match out {
            TunnOutcome::ToNetwork(wire) => Some(wire),
            _ => None,
        }
    }

    /// Decodes a datagram from the peer, hands it to the engine and decides what to do.
    pub fn handle_one_packet_from_peer(&mut self, recv_buf: &[u8]) -> (res: FromPeer)
        ensures
            final(self).same_options(*old(self)),
            old(self).established() ==> final(self).established(),
            res@.accepted() ==> final(self).established(),
            ({
                let d = decoded(recv_buf@, old(self).obfs, old(self).established());
                exists|out: Outcome| #[trigger]
                    handled(old(self).wg_type, d, out) == res@ && engine_allows(
                        d,
                        old(self).queue(),
                        old(self).established(),
                        old(self).in_handshake(),
                        out,
                    ) && handshake_after_datagram(d, *old(self), out, final(self).in_handshake())
            }),
            is_unfed(decoded(recv_buf@, old(self).obfs, old(self).established())) ==> *final(self)
                == *old(self),
            final(self).queue() == queue_after_datagram(
                decoded(recv_buf@, old(self).obfs, old(self).established()),
                old(self).queue(),
                old(self).established(),
            ),
    {
        let session_established = tunn_session_established(&self.tunn);
        match decode_wg_packet(recv_buf, self.obfs, session_established) {
            WgDecodedPacket::Junk(_) => {
                let res = FromPeer::Nothing { accepted: false };
                proof {
                    let d = decoded(recv_buf@, old(self).obfs, session_established);
                    assert(handled(old(self).wg_type, d, Outcome::Done) == res@);
                    assert(engine_allows(
                        d,
                        old(self).queue(),
                        session_established,
                        old(self).in_handshake(),
                        Outcome::Done,
                    ));
                }
                res
            },
            WgDecodedPacket::Packet { msg_type, payload } => {
                let out = open_datagram(&mut self.tunn, payload);
                let ghost out_view = out@;
                let res = react_to_decapsulated(self.wg_type, msg_type, out);
                proof {
                    let d = decoded(recv_buf@, old(self).obfs, session_established);
                    assert(handled(old(self).wg_type, d, out_view) == res@);
                    assert(engine_allows(
                        d,
                        old(self).queue(),
                        session_established,
                        old(self).in_handshake(),
                        out_view,
                    ));
                }
                res
            },
        }
    }

    /// The message for the next packet that waits in the queue, after a reply. With a session the
    /// oldest packet is taken out and sealed; without one it has to wait again.
    pub fn next_queued_packet(&mut self) -> (res: Option<Vec<u8>>)
        ensures
            final(self).same_options(*old(self)),
            final(self).established() == old(self).established(),
            old(self).queue().len() == 0 ==> res is None,
            old(self).queue().len() > 0 && old(self).established() ==> (res matches Some(wire)
                && is_data(wire@) && wire@.len() == old(self).queue()[0].len() + WG_DATA_OVERHEAD
                && wg_sealed(old(self).queue()[0], wire@)),
            old(self).queue().len() > 0 && !old(self).established() ==> (res is Some
                <==> !old(self).in_handshake()),
            !old(self).established() ==> (res matches Some(wire) ==> is_init(wire@)),
            final(self).in_handshake() == (old(self).in_handshake() || !old(self).established()
                && old(self).queue().len() > 0),
            final(self).queue() == queue_after_next(old(self).queue(), old(self).established()),
    {
        let empty: Vec<u8> = Vec::new();
        let out = open_datagram(&mut self.tunn, empty.as_slice());
        match out {
            TunnOutcome::ToNetwork(wire) => Some(wire),
            _ => None,
        }
    }

    /// One tick of the timers. Where the connection has expired, a new handshake is started.
    pub fn routine_step(&mut self) -> (res: RoutineAction)
        ensures
            final(self).same_options(*old(self)),
            exists|out: Outcome| #[trigger]
                timers_give(out) && (out is Failed ==> (res@ matches Routine::Send(packet)
                    && is_init(packet))) && (!(out is Failed) ==> res@ == routine_of(out)),
            old(self).queue().len() > 0 && final(self).queue().len() == 0 ==> (
            res@ matches Routine::Send(packet) && is_init(packet)),
            final(self).queue() == old(self).queue() || final(self).queue().len() == 0
                || final(self).queue() == with_queued(old(self).queue(), Seq::empty()),
            (res@ matches Routine::Send(packet) && is_init(packet)) ==> final(self).in_handshake(),
            !(res@ matches Routine::Send(packet) && is_init(packet)) ==> final(self).in_handshake()
                == old(self).in_handshake(),
    {
        let out = tunn_update_timers(&mut self.tunn, MAX_PACKET);
        assert(timers_give(out@));
        match after_tick(out) {
            RoutineStep::Act(action) => action,
            RoutineStep::Restart => {
                let again = tunn_handshake_init(&mut self.tunn, false, MAX_PACKET);
                match after_tick(again) {
                    RoutineStep::Act(action) => action,
                    RoutineStep::Restart => RoutineAction::Report,
                }
            },
        }
    }

    /// A handshake initiation to send; none where one is in progress and no repetition is forced.
    pub fn create_handshake_init(&mut self, force_resend: bool) -> (res: Option<Vec<u8>>)
        ensures
            final(self).same_options(*old(self)),
            final(self).established() == old(self).established(),
            final(self).queue() == old(self).queue(),
            res is Some <==> force_resend || !old(self).in_handshake(),
            final(self).in_handshake(),
            res matches Some(wire) ==> is_init(wire@),
    {
        let out = tunn_handshake_init(&mut self.tunn, force_resend, MAX_PACKET);
        match out {
            TunnOutcome::ToNetwork(wire) => Some(wire),
            _ => None,
        }
    }

    /// Whether the current session is established.
    pub fn is_session_established(&self) -> (res: bool)
        ensures
            res == self.established(),
    {
        tunn_session_established(&self.tunn)
    }
}

/// What is done about a decoded datagram, given what the engine makes of it.
pub open spec fn handled(wg_type: WgType, d: Decoded, out: Outcome) -> Reaction {
    match d {
        Decoded::Junk(_) => Reaction::Nothing { accepted: false },
        Decoded::Packet { msg_type, .. } => reaction(wg_type, msg_type, out),
    }
}

/// What the engine can make of a decoded datagram. An empty one asks for the next queued packet.
pub open spec fn engine_allows(
    d: Decoded,
    queue: Seq<Seq<u8>>,
    session: bool,
    in_handshake: bool,
    out: Outcome,
) -> bool {
    match d {
        Decoded::Junk(_) => true,
        Decoded::Packet { payload, .. } => opening_gives(
            payload,
            queue,
            session,
            in_handshake,
            out,
        ),
    }
}

/// The decoded datagram does not get to the engine: it is junk, or its counter is exhausted.
pub open spec fn is_unfed(d: Decoded) -> bool {
    match d {
        Decoded::Junk(_) => true,
        Decoded::Packet { payload, .. } => is_exhausted(payload),
    }
}

/// Whether a handshake can be in progress once the engine has got a decoded datagram.
pub open spec fn handshake_after_datagram(
    d: Decoded,
    state: WgPeerData,
    out: Outcome,
    after: bool,
) -> bool {
    match d {
        Decoded::Junk(_) => after == state.in_handshake(),
        Decoded::Packet { payload, .. } => if payload.len() == 0 {
            after == (state.in_handshake() || !state.established() && state.queue().len() > 0)
        } else {
            handshake_after(payload, out, state.in_handshake(), after)
        },
    }
}

/// The queue once the engine has got a decoded datagram.
pub open spec fn queue_after_datagram(
    d: Decoded,
    queue: Seq<Seq<u8>>,
    session: bool,
) -> Seq<Seq<u8>> {
    match d {
        Decoded::Packet { payload, .. } if payload.len() == 0 => queue_after_next(queue, session),
        _ => queue,
    }
}

/// What still waits after the queue was asked `n` times within a session.
pub open spec fn left_after(queue: Seq<Seq<u8>>, n: nat) -> Seq<Seq<u8>>
    decreases n,
{
    if n == 0 {
        queue
    } else {
        queue_after_next(left_after(queue, (n - 1) as nat), true)
    }
}

/// Within a session the packets that waited leave in the order in which they came, each once.
pub proof fn waiting_packets_leave_in_order(queue: Seq<Seq<u8>>, n: nat)
    requires
        n <= queue.len(),
    ensures
        left_after(queue, n) == queue.skip(n as int),
        n < queue.len() ==> left_after(queue, n)[0] == queue[n as int],
    decreases n,
{
    if n == 0 {
        assert(queue.skip(0) =~= queue);
    } else {
        waiting_packets_leave_in_order(queue, (n - 1) as nat);
        assert(queue.skip(n - 1).skip(1) =~= queue.skip(n as int));
    }
}

/// A packet that comes before the session is not lost, unless the queue is full: it is the next to
/// leave once those that came before it have left.
pub proof fn early_packets_are_sent_later(queue: Seq<Seq<u8>>, packet: Seq<u8>)
    requires
        queue.len() < WG_QUEUE_DEPTH,
    ensures
        left_after(queue_after(queue, packet, false), queue.len())[0] == packet,
{
    waiting_packets_leave_in_order(queue.push(packet), queue.len());
}

/// Only a data packet that the engine took proves that the peer can encrypt with the session.
pub proof fn only_data_packets_are_accepted(
    wg_type: WgType,
    wire: Seq<u8>,
    obfs: Option<WgObfsConfig>,
    queue: Seq<Seq<u8>>,
    established: bool,
    in_handshake: bool,
    out: Outcome,
)
    requires
        engine_allows(decoded(wire, obfs, established), queue, established, in_handshake, out),
        handled(wg_type, decoded(wire, obfs, established), out).accepted(),
    ensures
        decoded(wire, obfs, established) matches Decoded::Packet { payload, .. } && is_data(
            payload,
        ),
{
}

/// Where the ends pad an initiation differently, it is not answered, so that no session comes of
/// it. The excepted lengths are those at which random padding can pass for another message.
pub proof fn mismatched_ends_do_not_answer(
    wg_type: WgType,
    init: Seq<u8>,
    wire: Seq<u8>,
    client: Option<WgObfsConfig>,
    server: Option<WgObfsConfig>,
    queue: Seq<Seq<u8>>,
    established: bool,
    in_handshake: bool,
    out: Outcome,
)
    requires
        is_init(init),
        carries(wire, init, client),
        match server {
            None => padding_len(init, client) != 0,
            Some(s) => s.valid() && padding_len(init, client) != s.s1 && padding_len(init, client)
                != s.s4 && WG_HANDSHAKE_INIT_SIZE + padding_len(init, client)
                != WG_HANDSHAKE_RESPONSE_SIZE + s.s2,
        },
        engine_allows(decoded(wire, server, established), queue, established, in_handshake, out),
    ensures
        handled(wg_type, decoded(wire, server, established), out) !is Reply,
{
    let padding = choose|padding: Seq<u8>| #[trigger]
        padded(init, padding) == wire && padding.len() == padding_len(init, client);
    assert(wire.len() == init.len() + padding.len());
    match decoded(wire, server, established) {
        Decoded::Junk(_) => {},
        Decoded::Packet { payload, .. } => {
            assert(payload.len() != 0);
            assert(!is_init(payload));
            assert(!is_response(payload));
        },
    }
}

/// What one node prepares for the engine, the other hands to its tunnel: a message between nodes
/// comes out as it went in, with its header zeroed, and a packet of a client comes out as it is.
pub proof fn inbound_undoes_outbound(wg_type: WgType, packet: Seq<u8>, len: int)
    requires
        wg_type == WgType::InternalUse ==> packet.len() >= WG_TUNNEL_HEADER_SIZE,
    ensures
        inbound(wg_type, outbound(wg_type, packet, len)) == Some(
            match wg_type {
                WgType::InternalUse => Seq::new(WG_TUNNEL_HEADER_SIZE as nat, |i: int| 0u8)
                    + packet.skip(WG_TUNNEL_HEADER_SIZE as int),
                WgType::ExternalUse => packet,
            },
        ),
{
    if wg_type == WgType::InternalUse {
        let sent = outbound(wg_type, packet, len);
        assert(sent[0] == 0x45);
        assert(sent.skip(20) =~= packet.skip(20));
    }
}

/// The header says how long the packet is: its bytes 2 and 3, the higher one first, are the length
/// of the content and of the header together, as far as two bytes go.
pub proof fn the_header_tells_the_length(len: int)
    requires
        0 <= len,
    ensures
        ip_header(len).len() == 20,
        len + 20 < 65536 ==> ip_header(len)[2] * 256 + ip_header(len)[3] == len + 20,
        (len + 20 - (ip_header(len)[2] * 256 + ip_header(len)[3])) % 65536 == 0,
{
}

/// The header is that of an IPv4 packet of five words with 64 hops; what is not said is zero.
pub proof fn the_header_is_an_ipv4_header(len: int)
    ensures
        ip_header(len)[0] / 16 == 4,
        (ip_header(len)[0] % 16) * 4 == ip_header(len).len(),
        ip_header(len)[8] == 64,
        forall|k: int|
            0 <= k < 20 && k != 0 && k != 2 && k != 3 && k != 8 ==> #[trigger] ip_header(len)[k]
                == 0,
{
}

/// A message between nodes goes to the engine under a header that tells its whole length, with its
/// content as it was; a packet of a client goes as it is.
pub proof fn outbound_packets_tell_their_length(packet: Seq<u8>, len: int)
    requires
        0 <= len,
        packet.len() == len + 20,
        packet.len() < 65536,
    ensures
        outbound(WgType::InternalUse, packet, len).len() == packet.len(),
        outbound(WgType::InternalUse, packet, len)[2] * 256 + outbound(
            WgType::InternalUse,
            packet,
            len,
        )[3] == packet.len(),
        outbound(WgType::InternalUse, packet, len).skip(20) == packet.skip(20),
        outbound(WgType::ExternalUse, packet, len) == packet,
{
    assert(outbound(WgType::InternalUse, packet, len).skip(20) =~= packet.skip(20));
}

/// Whatever length is given, the header takes the place of the first 20 bytes of a message between
/// nodes and of nothing else.
pub proof fn the_header_takes_the_room_in_front(packet: Seq<u8>, len: int)
    requires
        packet.len() >= 20,
    ensures
        outbound(WgType::InternalUse, packet, len).len() == packet.len(),
        outbound(WgType::InternalUse, packet, len).take(20) == ip_header(len),
        forall|k: int|
            20 <= k < packet.len() ==> #[trigger] outbound(WgType::InternalUse, packet, len)[k]
                == packet[k],
        outbound(WgType::ExternalUse, packet, len) == packet,
{
    assert(outbound(WgType::InternalUse, packet, len).take(20) =~= ip_header(len));
}

/// What the tunnel gets of an IP packet between nodes: 20 zeroes and what stands behind the IP
/// header, which is 20 bytes long in version 4 and 40 bytes in any other. Only a packet shorter than
/// its header gives nothing; a packet of a client is passed on whatever it is.
pub proof fn inbound_takes_the_ip_header_off(packet: Seq<u8>)
    ensures
        inbound(WgType::ExternalUse, packet) == Some(packet),
        packet.len() == 0 ==> inbound(WgType::InternalUse, packet) is None,
        packet.len() > 0 && 64 <= packet[0] <= 79 ==> {
            &&& inbound(WgType::InternalUse, packet) is Some <==> packet.len() >= 20
            &&& inbound(WgType::InternalUse, packet) matches Some(bytes) ==> bytes.len()
                == packet.len() && bytes.skip(20) == packet.skip(20)
        },
        packet.len() > 0 && !(64 <= packet[0] <= 79) ==> {
            &&& inbound(WgType::InternalUse, packet) is Some <==> packet.len() >= 40
            &&& inbound(WgType::InternalUse, packet) matches Some(bytes) ==> bytes.len() + 20
                == packet.len() && bytes.skip(20) == packet.skip(40)
        },
        inbound(WgType::InternalUse, packet) matches Some(bytes) ==> bytes.len() >= 20 && forall|
            k: int,
        |
            0 <= k < 20 ==> #[trigger] bytes[k] == 0,
{
    if let Some(bytes) = inbound(WgType::InternalUse, packet) {
        if 64 <= packet[0] <= 79 {
            assert(bytes.skip(20) =~= packet.skip(20));
        } else {
            assert(bytes.skip(20) =~= packet.skip(40));
        }
    }
}

/// What the engine makes of a datagram decides what is done about it: a message for the network is
/// sent as it is, an IP packet of either version is forwarded where it can be, and nothing is done
/// otherwise. Only a data packet, of type 4, that the engine took without a packet in it is accepted
/// then.
pub proof fn the_engine_decides_the_reaction(wg_type: WgType, msg_type: u32, packet: Seq<u8>)
    ensures
        reaction(wg_type, msg_type, Outcome::ToNetwork(packet)) == Reaction::Reply(packet),
        reaction(wg_type, msg_type, Outcome::ToTunnelV4(packet)) == reaction(
            wg_type,
            msg_type,
            Outcome::ToTunnelV6(packet),
        ),
        reaction(WgType::ExternalUse, msg_type, Outcome::ToTunnelV4(packet)) == Reaction::Forward(
            packet,
        ),
        match reaction(WgType::InternalUse, msg_type, Outcome::ToTunnelV4(packet)) {
            Reaction::Forward(bytes) => inbound(WgType::InternalUse, packet) == Some(bytes),
            Reaction::Malformed => inbound(WgType::InternalUse, packet) is None,
            _ => false,
        },
        reaction(wg_type, msg_type, Outcome::Done) == (Reaction::Nothing {
            accepted: msg_type == 4,
        }),
        forall|expired: bool|
            #[trigger] reaction(wg_type, msg_type, Outcome::Failed { expired })
                == (Reaction::Nothing { accepted: false }),
{
}

/// A datagram shows that the peer can encrypt exactly where something of it is forwarded, or where
/// it is said to be accepted: a reply and a malformed message show nothing.
pub proof fn what_is_accepted(bytes: Seq<u8>, accepted: bool)
    ensures
        Reaction::Forward(bytes).accepted(),
        !Reaction::Reply(bytes).accepted(),
        !Reaction::Malformed.accepted(),
        (Reaction::Nothing { accepted }).accepted() == accepted,
{
}

/// Junk is never accepted and never answered, whatever the engine would have made of it; anything else
/// is handled by what the engine made of it.
pub proof fn junk_is_not_handled(
    wg_type: WgType,
    reason: JunkReason,
    msg_type: u32,
    payload: Seq<u8>,
    out: Outcome,
)
    ensures
        handled(wg_type, Decoded::Packet { msg_type, payload }, out) == reaction(
            wg_type,
            msg_type,
            out,
        ),
        handled(wg_type, Decoded::Junk(reason), out) == (Reaction::Nothing { accepted: false }),
        is_unfed(Decoded::Junk(reason)),
{
}

/// A tick is followed by what the engine asks for: its message is sent, an error that does not end
/// the connection is reported, and otherwise the next tick is a quarter of a second away.
pub proof fn a_tick_does_what_the_engine_asks(packet: Seq<u8>)
    ensures
        routine_of(Outcome::ToNetwork(packet)) == Routine::Send(packet),
        routine_of(Outcome::Failed { expired: false }) == Routine::Report,
        routine_of(Outcome::Done) == Routine::Sleep(250_000_000),
        routine_of(Outcome::ToTunnelV4(packet)) == Routine::Sleep(250_000_000),
        routine_of(Outcome::ToTunnelV6(packet)) == Routine::Sleep(250_000_000),
        is_expired(Outcome::Failed { expired: true }),
        !is_expired(Outcome::Failed { expired: false }),
        !is_expired(Outcome::Done),
        !is_expired(Outcome::ToNetwork(packet)),
        !is_expired(Outcome::ToTunnelV4(packet)),
        !is_expired(Outcome::ToTunnelV6(packet)),
{
}

/// A data packet gets to the engine unless its counter, the eight bytes from the ninth on with the
/// lowest first, is above the largest that the engine can count; any other message always does.
pub proof fn only_exhausted_packets_are_kept_from_the_engine(
    msg_type: u32,
    payload: Seq<u8>,
)
    ensures
        is_unfed(Decoded::Packet { msg_type, payload }) ==> payload.len() >= 32 && payload[0] == 4
            && payload[1] == 0 && payload[2] == 0 && payload[3] == 0,
        is_unfed(Decoded::Packet { msg_type, payload }) ==> forall|k: int|
            10 <= k < 16 ==> #[trigger] payload[k] == 255,
        is_unfed(Decoded::Packet { msg_type, payload }) ==> payload[9] >= 252,
        payload.len() >= 32 && payload[0] == 4 && payload[1] == 0 && payload[2] == 0 && payload[3]
            == 0 && payload[9] >= 252 && (forall|k: int|
            10 <= k < 16 ==> #[trigger] payload[k] == 255) ==> is_unfed(
            Decoded::Packet { msg_type, payload },
        ),
{
    if payload.len() >= 32 && payload[9] >= 252 && (forall|k: int|
        10 <= k < 16 ==> #[trigger] payload[k] == 255) {
        assert(payload[10] == 255 && payload[11] == 255 && payload[12] == 255 && payload[13] == 255
            && payload[14] == 255 && payload[15] == 255);
    }
}

/// The queue is touched by an empty message alone: within a session that takes the oldest packet
/// out, and without one it puts it at the end.
pub proof fn only_an_empty_message_moves_the_queue(
    msg_type: u32,
    payload: Seq<u8>,
    queue: Seq<Seq<u8>>,
    session: bool,
    reason: JunkReason,
)
    ensures
        payload.len() > 0 ==> queue_after_datagram(
            Decoded::Packet { msg_type, payload },
            queue,
            session,
        ) == queue,
        queue_after_datagram(Decoded::Junk(reason), queue, session) == queue,
        payload.len() == 0 && queue.len() > 0 && session ==> queue_after_datagram(
            Decoded::Packet { msg_type, payload },
            queue,
            session,
        ) == queue.skip(1),
        payload.len() == 0 && 0 < queue.len() <= 256 && !session ==> queue_after_datagram(
            Decoded::Packet { msg_type, payload },
            queue,
            session,
        ) == queue.skip(1).push(queue[0]),
{
}

/// What is to be done is shown as it is.
pub proof fn reactions_are_shown_as_they_are(
    bytes: Vec<u8>,
    accepted: bool,
    d: Duration,
)
    ensures
        (FromPeer::Nothing { accepted })@ == (Reaction::Nothing { accepted }),
        FromPeer::Reply(bytes)@ == Reaction::Reply(bytes@),
        FromPeer::Forward(bytes)@ == Reaction::Forward(bytes@),
        FromPeer::Malformed@ == Reaction::Malformed,
        RoutineAction::Send(bytes)@ == Routine::Send(bytes@),
        RoutineAction::Report@ == Routine::Report,
        RoutineAction::Sleep(d)@ == Routine::Sleep(d.nanos as int),
{
}

/// The options that nothing changes are the use, the obfuscation and the keys.
pub proof fn what_stays_of_a_tunnel(a: WgPeerData, b: WgPeerData)
    ensures
        a.same_options(b) <==> a.wg_type == b.wg_type && a.obfs == b.obfs && tunn_keys(a.tunn)
            == tunn_keys(b.tunn),
        a.established() == tunn_has_session(a.tunn),
        a.in_handshake() == tunn_in_handshake(a.tunn),
        a.queue() == tunn_queue(a.tunn),
{
}

/// The sizes of the headers, in bytes.
pub proof fn sizes_of_the_headers()
    ensures
        WG_TUNNEL_HEADER_SIZE == 20,
        IPV6_HEADER_SIZE == 40,
{
}

/// The header of a packet is 20 bytes for IPv4 and 40 for IPv6, and what is behind it stays.
pub proof fn what_is_behind_the_ip_header(packet: &[u8], v4: &[u8], v6: &[u8], i: int)
    requires
        packet@.len() >= 40,
        call_ensures(remove_ip_header, (packet, true), v4),
        call_ensures(remove_ip_header, (packet, false), v6),
    ensures
        v4@.len() == packet@.len() - 20,
        v6@.len() == packet@.len() - 40,
        0 <= i < v4@.len() ==> v4@[i] == packet@[20 + i],
        0 <= i < v6@.len() ==> v6@[i] == packet@[40 + i],
{
}

} // verus!
