//! The WireGuard protocol engine, `boringtun_easytier::noise::Tunn`, seen through plain values.
use crate::wireguard::obfs::{
    WG_COOKIE_REPLY_SIZE, WG_HANDSHAKE_INIT_SIZE, WG_HANDSHAKE_RESPONSE_SIZE,
};
use crate::wireguard::packet::{
    msg_type_of, read_wg_msg_type, WG_MSG_COOKIE_REPLY, WG_MSG_DATA, WG_MSG_HANDSHAKE_INIT,
    WG_MSG_HANDSHAKE_RESPONSE,
};
use boringtun_easytier::noise::errors::WireGuardError;
use boringtun_easytier::noise::{Tunn, TunnResult};
use boringtun_easytier::x25519::{PublicKey, StaticSecret};
use vstd::prelude::*;

verus! {

/// Room for one packet.
pub const MAX_PACKET: usize = 2048;

/// The most bytes that padding adds to a packet.
pub const MAX_OBFS_PADDING: usize = 64;

/// Room for one received datagram.
pub const MAX_UDP_RECV: usize = 2112;

/// What a data packet is longer than the packet inside it.
pub const WG_DATA_OVERHEAD: usize = 32;

/// The largest counter of a data packet that the engine can take.
pub const WG_COUNTER_MAX: u64 = 0xffff_ffff_ffff_fbff;

/// How many packets can wait for a session.
pub const WG_QUEUE_DEPTH: usize = 256;

/// One WireGuard tunnel: keys, sessions, timers and the queue of packets that wait for a session.
#[verifier::external_type_specification]
#[verifier::external_body]
pub struct ExTunn(boringtun_easytier::noise::Tunn);

/// What the engine asks for.
#[derive(Debug)]
pub enum TunnOutcome {
    /// Nothing.
    Done,
    /// It refused; `expired`: the connection has to be established anew.
    Failed { expired: bool },
    /// Send this message to the peer.
    ToNetwork(Vec<u8>),
    /// Hand this IPv4 packet to the tunnel.
    ToTunnelV4(Vec<u8>),
    /// Hand this IPv6 packet to the tunnel.
    ToTunnelV6(Vec<u8>),
}

/// What the engine asks for, over sequences.
#[verifier::ext_equal]
pub ghost enum Outcome {
    Done,
    Failed { expired: bool },
    ToNetwork(Seq<u8>),
    ToTunnelV4(Seq<u8>),
    ToTunnelV6(Seq<u8>),
}

impl View for TunnOutcome {
    type V = Outcome;

    open spec fn view(&self) -> Outcome {
        match *self {
            TunnOutcome::Done => Outcome::Done,
            TunnOutcome::Failed { expired } => Outcome::Failed { expired },
            TunnOutcome::ToNetwork(packet) => Outcome::ToNetwork(packet@),
            TunnOutcome::ToTunnelV4(packet) => Outcome::ToTunnelV4(packet@),
            TunnOutcome::ToTunnelV6(packet) => Outcome::ToTunnelV6(packet@),
        }
    }
}

/// `data` is a message of the given type and size.
pub open spec fn is_message(data: Seq<u8>, msg_type: u32, size: int) -> bool {
    msg_type_of(data) == Some(msg_type) && data.len() == size
}

/// `data` is a handshake initiation.
pub open spec fn is_init(data: Seq<u8>) -> bool {
    is_message(data, WG_MSG_HANDSHAKE_INIT, WG_HANDSHAKE_INIT_SIZE as int)
}

/// `data` is a handshake response.
pub open spec fn is_response(data: Seq<u8>) -> bool {
    is_message(data, WG_MSG_HANDSHAKE_RESPONSE, WG_HANDSHAKE_RESPONSE_SIZE as int)
}

/// `data` is a cookie reply.
pub open spec fn is_cookie(data: Seq<u8>) -> bool {
    is_message(data, WG_MSG_COOKIE_REPLY, WG_COOKIE_REPLY_SIZE as int)
}

/// `data` is a data packet.
pub open spec fn is_data(data: Seq<u8>) -> bool {
    msg_type_of(data) == Some(WG_MSG_DATA) && data.len() >= WG_DATA_OVERHEAD
}

/// The counter of a data packet: eight bytes, the lowest first.
pub open spec fn data_counter(data: Seq<u8>) -> int {
    data[8] + data[9] * 0x100 + data[10] * 0x1_0000 + data[11] * 0x100_0000 + data[12]
        * 0x1_0000_0000 + data[13] * 0x100_0000_0000 + data[14] * 0x1_0000_0000_0000 + data[15]
        * 0x100_0000_0000_0000
}

/// `data` is a data packet whose counter is too large for the engine.
pub open spec fn is_exhausted(data: Seq<u8>) -> bool {
    is_data(data) && data_counter(data) > WG_COUNTER_MAX
}

/// Whether a message is a data packet whose counter is too large for the engine.
pub fn has_exhausted_counter(data: &[u8]) -> (res: bool)
    ensures
        res == is_exhausted(data@),
{
    if data.len() < WG_DATA_OVERHEAD {
        return false;
    }
    match read_wg_msg_type(data) {
        Some(msg_type) => {
            if msg_type != WG_MSG_DATA {
                return false;
            }
        },
        None => {
            return false;
        },
    }
    let low: u64 = data[8] as u64 + data[9] as u64 * 0x100 + data[10] as u64 * 0x1_0000 + data[11]
        as u64 * 0x100_0000;
    let high: u64 = data[12] as u64 + data[13] as u64 * 0x100 + data[14] as u64 * 0x1_0000
        + data[15] as u64 * 0x100_0000;
    let counter: u64 = low + high * 0x1_0000_0000;
    counter > WG_COUNTER_MAX
}

/// Whether `Tunn::encapsulate` can, in some session, turn `packet` into the data packet `wire`.
pub uninterp spec fn wg_sealed(packet: Seq<u8>, wire: Seq<u8>) -> bool;

/// Whether `Tunn::decapsulate` can, in some session, take `packet` out of the data packet `wire`.
pub uninterp spec fn wg_opened(wire: Seq<u8>, packet: Seq<u8>) -> bool;

/// The keys that a tunnel was made with, its own secret and the public key of the peer, and its
/// index.
pub uninterp spec fn tunn_keys(tunn: Tunn) -> (Seq<u8>, Seq<u8>, u32);

/// Whether a tunnel has a current session.
pub uninterp spec fn tunn_has_session(tunn: Tunn) -> bool;

/// Whether a tunnel has a handshake in progress.
pub uninterp spec fn tunn_in_handshake(tunn: Tunn) -> bool;

/// The packets that wait in a tunnel for a session, the oldest first.
pub uninterp spec fn tunn_queue(tunn: Tunn) -> Seq<Seq<u8>>;

/// A queue with one packet more at its end. A full queue stays as it is, and the packet is lost.
pub open spec fn with_queued(queue: Seq<Seq<u8>>, packet: Seq<u8>) -> Seq<Seq<u8>> {
    if queue.len() < WG_QUEUE_DEPTH {
        queue.push(packet)
    } else {
        queue
    }
}

/// The queue once `packet` was encapsulated: only without a session it has to wait.
pub open spec fn queue_after(queue: Seq<Seq<u8>>, packet: Seq<u8>, session: bool) -> Seq<Seq<u8>> {
    if session {
        queue
    } else {
        with_queued(queue, packet)
    }
}

/// The queue once its next packet was asked for: the oldest packet is taken out, and without a
/// session it has to wait again.
pub open spec fn queue_after_next(queue: Seq<Seq<u8>>, session: bool) -> Seq<Seq<u8>> {
    if queue.len() == 0 {
        queue
    } else {
        queue_after(queue.skip(1), queue[0], session)
    }
}

/// What can become of the queue by the passing of time: it stays, it is emptied where the
/// connection ends, or an empty packet joins it where there is no session to send that in.
pub open spec fn queue_after_tick(
    before: Seq<Seq<u8>>,
    after: Seq<Seq<u8>>,
    out: Outcome,
) -> bool {
    ||| after == before
    ||| out is Failed && after.len() == 0
    ||| !(out is Failed) && after == with_queued(before, Seq::empty())
}

/// What can come of encapsulating `packet`: with a session it is sealed into a data packet; without
/// one it is queued, and a handshake is started if none is in progress.
pub open spec fn encapsulate_gives(
    packet: Seq<u8>,
    session: bool,
    in_handshake: bool,
    out: Outcome,
) -> bool {
    if session {
        out matches Outcome::ToNetwork(wire) && is_data(wire) && wire.len() == packet.len()
            + WG_DATA_OVERHEAD && wg_sealed(packet, wire)
    } else {
        handshake_gives(false, in_handshake, out)
    }
}

/// What can come of asking for the next queued packet: nothing where the queue is empty, otherwise
/// what comes of encapsulating the oldest packet.
pub open spec fn queue_gives(
    queue: Seq<Seq<u8>>,
    session: bool,
    in_handshake: bool,
    out: Outcome,
) -> bool {
    if queue.len() == 0 {
        out is Done
    } else {
        encapsulate_gives(queue[0], session, in_handshake, out)
    }
}

/// What can come of decapsulating `datagram`, which is not empty. An initiation is answered by a
/// response, a response by a data packet without content; a cookie reply is taken note of; a data
/// packet gives an IP packet that was opened from it, or nothing where it is empty. Any of these can
/// be refused, and everything else is.
pub open spec fn decapsulate_gives(datagram: Seq<u8>, out: Outcome) -> bool {
    if is_init(datagram) {
        out is Failed || (out matches Outcome::ToNetwork(wire) && is_response(wire))
    } else if is_response(datagram) {
        out is Failed || (out matches Outcome::ToNetwork(wire) && is_data(wire) && wire.len()
            == WG_DATA_OVERHEAD)
    } else if is_cookie(datagram) {
        out is Failed || out is Done
    } else if is_data(datagram) {
        match out {
            Outcome::Done => true,
            Outcome::Failed { .. } => true,
            Outcome::ToNetwork(_) => false,
            Outcome::ToTunnelV4(packet) => packet.len() + WG_DATA_OVERHEAD <= datagram.len() && (
            packet.len() > 0 ==> packet[0] / 16 == 4) && wg_opened(datagram, packet),
            Outcome::ToTunnelV6(packet) => packet.len() + WG_DATA_OVERHEAD <= datagram.len()
                && packet.len() >= 40 && packet[0] / 16 == 6 && wg_opened(datagram, packet),
        }
    } else {
        out is Failed
    }
}

/// What comes of asking for a handshake initiation: it is given, unless a handshake is in progress
/// and no repetition is forced.
pub open spec fn handshake_gives(force_resend: bool, in_handshake: bool, out: Outcome) -> bool {
    if in_handshake && !force_resend {
        out is Done
    } else {
        out matches Outcome::ToNetwork(wire) && is_init(wire)
    }
}

/// Whether a handshake can be in progress after a datagram, which is not empty, was decapsulated.
/// An initiation that is answered ends the node's own handshake, a response can; nothing else
/// changes that.
pub open spec fn handshake_after(
    datagram: Seq<u8>,
    out: Outcome,
    before: bool,
    after: bool,
) -> bool {
    if out is Failed {
        after == before
    } else if is_init(datagram) {
        !after
    } else if is_response(datagram) {
        after ==> before
    } else {
        after == before
    }
}

/// Whether a handshake is in progress after the passing of time: one that was started is, none is
/// where the connection ended, and otherwise nothing changed.
pub open spec fn handshake_after_tick(out: Outcome, before: bool, after: bool) -> bool {
    match out {
        Outcome::Failed { .. } => !after,
        Outcome::ToNetwork(wire) => if is_init(wire) {
            after
        } else {
            after == before
        },
        _ => after == before,
    }
}

/// What can come of the passing of time: nothing, a handshake initiation, a data packet without
/// content, or the end of the connection.
pub open spec fn timers_give(out: Outcome) -> bool {
    match out {
        Outcome::Done => true,
        Outcome::Failed { expired } => expired,
        Outcome::ToNetwork(wire) => is_init(wire) || is_data(wire) && wire.len()
            == WG_DATA_OVERHEAD,
        _ => false,
    }
}

/// `x25519::PublicKey::from` of a secret: the public key that belongs to it.
pub uninterp spec fn x25519_public(secret: Seq<u8>) -> Seq<u8>;

/// `x25519::StaticSecret::from`, `x25519::PublicKey::from` and `PublicKey::to_bytes`. Claimed:
/// the result is the public key of `secret`.
#[verifier::external_body]
pub(crate) fn public_key_of(secret: &[u8; 32]) -> (public: [u8; 32])
    ensures
        public@ == x25519_public(secret@),
{
    PublicKey::from(&StaticSecret::from(*secret)).to_bytes()
}

/// `Tunn::new` without preshared key, keepalive interval and shared rate limiter. Claimed: the
/// tunnel has the given keys and index, no session yet, no handshake in progress, and nothing in
/// its queue.
#[verifier::external_body]
pub(crate) fn tunn_new(my_secret: &[u8; 32], peer_public: &[u8; 32], index: u32) -> (tunn: Tunn)
    ensures
        tunn_keys(tunn) == (my_secret@, peer_public@, index),
        !tunn_has_session(tunn),
        !tunn_in_handshake(tunn),
        tunn_queue(tunn) == Seq::<Seq<u8>>::empty(),
{
    let secret = StaticSecret::from(*my_secret);
    let public = PublicKey::from(*peer_public);
    Tunn::new(secret, public, None, None, index, None)
}

/// `Tunn::time_since_last_handshake`, of which only the presence is kept. Claimed: the time is there
/// where the tunnel has a current session.
#[verifier::external_body]
pub(crate) fn tunn_session_established(tunn: &Tunn) -> (res: bool)
    ensures
        res == tunn_has_session(*tunn),
{
    tunn.time_since_last_handshake().is_some()
}

/// `Tunn::encapsulate` into a buffer of `room` bytes. Claimed: what `encapsulate_gives` says, that
/// the session stays as it is, and that without one the packet joins the queue, as `queue_after`
/// says, and a handshake is in progress afterwards. The bounds keep it, and every later
/// [`tunn_decapsulate`] that takes the packet from the queue, from panicking for want of room. What
/// the bytes of the data packet are, beyond their type and number, is left unsaid: they rest on the
/// keys of the session and on its counter.
#[verifier::external_body]
pub(crate) fn tunn_encapsulate(tunn: &mut Tunn, packet: &Vec<u8>, room: usize) -> (out: TunnOutcome)
    requires
        packet@.len() + WG_DATA_OVERHEAD <= MAX_PACKET <= room,
    ensures
        tunn_keys(*final(tunn)) == tunn_keys(*old(tunn)),
        tunn_has_session(*final(tunn)) == tunn_has_session(*old(tunn)),
        tunn_in_handshake(*final(tunn)) == (tunn_in_handshake(*old(tunn)) || !tunn_has_session(
            *old(tunn),
        )),
        tunn_queue(*final(tunn)) == queue_after(
            tunn_queue(*old(tunn)),
            packet@,
            tunn_has_session(*old(tunn)),
        ),
        encapsulate_gives(
            packet@,
            tunn_has_session(*old(tunn)),
            tunn_in_handshake(*old(tunn)),
            out@,
        ),
        out@ matches Outcome::ToNetwork(wire) ==> is_init(wire) || wg_sealed(packet@, wire),
{
    let mut buf = vec![0u8; room];
    match tunn.encapsulate(packet, &mut buf) {
        TunnResult::Done => TunnOutcome::Done,
        TunnResult::Err(WireGuardError::ConnectionExpired) => TunnOutcome::Failed { expired: true },
        TunnResult::Err(_) => TunnOutcome::Failed { expired: false },
        TunnResult::WriteToNetwork(packet) => TunnOutcome::ToNetwork(packet.to_vec()),
        TunnResult::WriteToTunnelV4(packet, _) => TunnOutcome::ToTunnelV4(packet.to_vec()),
        TunnResult::WriteToTunnelV6(packet, _) => TunnOutcome::ToTunnelV6(packet.to_vec()),
    }
}

/// `Tunn::decapsulate` without a source address, into a buffer of `room` bytes. Claimed:
/// - of an empty datagram, what `queue_gives` says; the session stays, the queue changes as
///   `queue_after_next` says, and where a packet waits without a session, a handshake is in progress
///   afterwards;
/// - of any other, what `decapsulate_gives` and `handshake_after` say; the queue stays, a session is
///   not lost, and there is one once a response or a data packet was taken.
///
/// The buffer must hold a packet from the queue and the content of `datagram`, and the counter of a
/// data packet must leave room for the arithmetic on it, otherwise the call can panic. Which data
/// packets are taken, and that what is opened is what the peer sealed, is left unsaid: it rests on
/// the sessions of both ends.
#[verifier::external_body]
fn tunn_decapsulate(tunn: &mut Tunn, datagram: &[u8], room: usize) -> (out: TunnOutcome)
    requires
        MAX_PACKET <= room,
        datagram@.len() <= room,
        !is_exhausted(datagram@),
    ensures
        tunn_keys(*final(tunn)) == tunn_keys(*old(tunn)),
        tunn_has_session(*old(tunn)) ==> tunn_has_session(*final(tunn)),
        datagram@.len() == 0 ==> tunn_has_session(*final(tunn)) == tunn_has_session(*old(tunn)),
        datagram@.len() == 0 ==> tunn_in_handshake(*final(tunn)) == (tunn_in_handshake(*old(tunn))
            || !tunn_has_session(*old(tunn)) && tunn_queue(*old(tunn)).len() > 0),
        datagram@.len() == 0 ==> queue_gives(
            tunn_queue(*old(tunn)),
            tunn_has_session(*old(tunn)),
            tunn_in_handshake(*old(tunn)),
            out@,
        ),
        datagram@.len() == 0 ==> tunn_queue(*final(tunn)) == queue_after_next(
            tunn_queue(*old(tunn)),
            tunn_has_session(*old(tunn)),
        ),
        datagram@.len() > 0 ==> tunn_queue(*final(tunn)) == tunn_queue(*old(tunn)),
        datagram@.len() > 0 ==> decapsulate_gives(datagram@, out@),
        datagram@.len() > 0 ==> handshake_after(
            datagram@,
            out@,
            tunn_in_handshake(*old(tunn)),
            tunn_in_handshake(*final(tunn)),
        ),
        (is_response(datagram@) || is_data(datagram@)) && out@ !is Failed ==> tunn_has_session(
            *final(tunn),
        ),
        out@ matches Outcome::ToTunnelV4(packet) ==> wg_opened(datagram@, packet),
{
    let mut buf = vec![0u8; room];
    match tunn.decapsulate(None, datagram, &mut buf) {
        TunnResult::Done => TunnOutcome::Done,
        TunnResult::Err(WireGuardError::ConnectionExpired) => TunnOutcome::Failed { expired: true },
        TunnResult::Err(_) => TunnOutcome::Failed { expired: false },
        TunnResult::WriteToNetwork(packet) => TunnOutcome::ToNetwork(packet.to_vec()),
        TunnResult::WriteToTunnelV4(packet, _) => TunnOutcome::ToTunnelV4(packet.to_vec()),
        TunnResult::WriteToTunnelV6(packet, _) => TunnOutcome::ToTunnelV6(packet.to_vec()),
    }
}

/// `Tunn::format_handshake_initiation` into a buffer of `room` bytes. Claimed: what
/// `handshake_gives` says, that a handshake is in progress afterwards, and that session and queue
/// stay as they are; a smaller buffer would be refused.
#[verifier::external_body]
pub(crate) fn tunn_handshake_init(tunn: &mut Tunn, force_resend: bool, room: usize) -> (out:
    TunnOutcome)
    requires
        WG_HANDSHAKE_INIT_SIZE <= room,
    ensures
        tunn_keys(*final(tunn)) == tunn_keys(*old(tunn)),
        tunn_has_session(*final(tunn)) == tunn_has_session(*old(tunn)),
        tunn_queue(*final(tunn)) == tunn_queue(*old(tunn)),
        handshake_gives(force_resend, tunn_in_handshake(*old(tunn)), out@),
        tunn_in_handshake(*final(tunn)),
{
    let mut buf = vec![0u8; room];
    match tunn.format_handshake_initiation(&mut buf, force_resend) {
        TunnResult::Done => TunnOutcome::Done,
        TunnResult::Err(WireGuardError::ConnectionExpired) => TunnOutcome::Failed { expired: true },
        TunnResult::Err(_) => TunnOutcome::Failed { expired: false },
        TunnResult::WriteToNetwork(packet) => TunnOutcome::ToNetwork(packet.to_vec()),
        TunnResult::WriteToTunnelV4(packet, _) => TunnOutcome::ToTunnelV4(packet.to_vec()),
        TunnResult::WriteToTunnelV6(packet, _) => TunnOutcome::ToTunnelV6(packet.to_vec()),
    }
}

/// `Tunn::update_timers` into a buffer of `room` bytes. Claimed: what `timers_give` says, of the
/// queue what `queue_after_tick` says, and of the handshake what `handshake_after_tick` says; a
/// smaller buffer would be refused. Which of these comes rests on the time.
#[verifier::external_body]
pub(crate) fn tunn_update_timers(tunn: &mut Tunn, room: usize) -> (out: TunnOutcome)
    requires
        WG_HANDSHAKE_INIT_SIZE <= room,
    ensures
        tunn_keys(*final(tunn)) == tunn_keys(*old(tunn)),
        timers_give(out@),
        queue_after_tick(tunn_queue(*old(tunn)), tunn_queue(*final(tunn)), out@),
        handshake_after_tick(
            out@,
            tunn_in_handshake(*old(tunn)),
            tunn_in_handshake(*final(tunn)),
        ),
{
    let mut buf = vec![0u8; room];
    match tunn.update_timers(&mut buf) {
        TunnResult::Done => TunnOutcome::Done,
        TunnResult::Err(WireGuardError::ConnectionExpired) => TunnOutcome::Failed { expired: true },
        TunnResult::Err(_) => TunnOutcome::Failed { expired: false },
        TunnResult::WriteToNetwork(packet) => TunnOutcome::ToNetwork(packet.to_vec()),
        TunnResult::WriteToTunnelV4(packet, _) => TunnOutcome::ToTunnelV4(packet.to_vec()),
        TunnResult::WriteToTunnelV6(packet, _) => TunnOutcome::ToTunnelV6(packet.to_vec()),
    }
}

/// What can come of decapsulating a datagram that may have an exhausted counter: it is refused
/// where it has.
pub open spec fn opening_gives(
    datagram: Seq<u8>,
    queue: Seq<Seq<u8>>,
    session: bool,
    in_handshake: bool,
    out: Outcome,
) -> bool {
    if datagram.len() == 0 {
        queue_gives(queue, session, in_handshake, out)
    } else if is_exhausted(datagram) {
        out == (Outcome::Failed { expired: false })
    } else {
        decapsulate_gives(datagram, out)
    }
}

/// Hands a datagram to the engine. One with an exhausted counter is refused and does not get there.
pub(crate) fn open_datagram(tunn: &mut Tunn, datagram: &[u8]) -> (out: TunnOutcome)
    ensures
        is_exhausted(datagram@) ==> *final(tunn) == *old(tunn),
        tunn_keys(*final(tunn)) == tunn_keys(*old(tunn)),
        tunn_has_session(*old(tunn)) ==> tunn_has_session(*final(tunn)),
        opening_gives(
            datagram@,
            tunn_queue(*old(tunn)),
            tunn_has_session(*old(tunn)),
            tunn_in_handshake(*old(tunn)),
            out@,
        ),
        datagram@.len() == 0 ==> tunn_has_session(*final(tunn)) == tunn_has_session(*old(tunn)),
        datagram@.len() == 0 ==> tunn_in_handshake(*final(tunn)) == (tunn_in_handshake(*old(tunn))
            || !tunn_has_session(*old(tunn)) && tunn_queue(*old(tunn)).len() > 0),
        datagram@.len() == 0 ==> tunn_queue(*final(tunn)) == queue_after_next(
            tunn_queue(*old(tunn)),
            tunn_has_session(*old(tunn)),
        ),
        datagram@.len() > 0 ==> tunn_queue(*final(tunn)) == tunn_queue(*old(tunn)),
        datagram@.len() > 0 ==> handshake_after(
            datagram@,
            out@,
            tunn_in_handshake(*old(tunn)),
            tunn_in_handshake(*final(tunn)),
        ),
        (is_response(datagram@) || is_data(datagram@)) && out@ !is Failed ==> tunn_has_session(
            *final(tunn),
        ),
{
    if has_exhausted_counter(datagram) {
        return TunnOutcome::Failed { expired: false };
    }
    let room: usize = if datagram.len() > MAX_PACKET {
        datagram.len()
    } else {
        MAX_PACKET
    };
    tunn_decapsulate(tunn, datagram, room)
}

/// The messages by their first bytes and their size: 148 bytes of type 1, 92 of type 2, 64 of type 3,
/// and at least 32 of type 4.
pub proof fn messages_by_type_and_size(data: Seq<u8>)
    ensures
        is_init(data) <==> data.len() == 148 && data[0] == 1 && data[1] == 0 && data[2] == 0
            && data[3] == 0,
        is_response(data) <==> data.len() == 92 && data[0] == 2 && data[1] == 0 && data[2] == 0
            && data[3] == 0,
        is_cookie(data) <==> data.len() == 64 && data[0] == 3 && data[1] == 0 && data[2] == 0
            && data[3] == 0,
        is_data(data) <==> data.len() >= 32 && data[0] == 4 && data[1] == 0 && data[2] == 0
            && data[3] == 0,
{
}

/// A packet that has to wait joins the end of the queue, as long as fewer than 256 wait; within a
/// session none has to wait.
pub proof fn packets_wait_at_the_end_of_the_queue(queue: Seq<Seq<u8>>, packet: Seq<u8>)
    ensures
        queue_after(queue, packet, true) == queue,
        queue.len() < 256 ==> queue_after(queue, packet, false) == queue.push(packet),
        queue.len() >= 256 ==> queue_after(queue, packet, false) == queue,
{
}

/// Asking for the next packet takes the oldest one: within a session it leaves, without one it goes
/// to the end and every other moves up. An empty queue stays empty.
pub proof fn the_oldest_packet_is_next(queue: Seq<Seq<u8>>, session: bool)
    ensures
        queue.len() == 0 ==> queue_after_next(queue, session) == queue,
        queue.len() > 0 ==> queue_after_next(queue, true) == queue.skip(1),
        0 < queue.len() <= 256 ==> queue_after_next(queue, false).len() == queue.len()
            && queue_after_next(queue, false).last() == queue[0] && queue_after_next(
            queue,
            false,
        ).drop_last() == queue.skip(1),
{
    if 0 < queue.len() <= 256 {
        assert(queue_after_next(queue, false).drop_last() =~= queue.skip(1));
    }
}

/// What the engine gives is shown as it is.
pub proof fn outcomes_are_shown_as_they_are(packet: Vec<u8>, expired: bool)
    ensures
        TunnOutcome::Done@ == Outcome::Done,
        (TunnOutcome::Failed { expired })@ == (Outcome::Failed { expired }),
        TunnOutcome::ToNetwork(packet)@ == Outcome::ToNetwork(packet@),
        TunnOutcome::ToTunnelV4(packet)@ == Outcome::ToTunnelV4(packet@),
        TunnOutcome::ToTunnelV6(packet)@ == Outcome::ToTunnelV6(packet@),
{
}

/// The limits of the engine: how large a packet and a datagram can be, what a data packet adds to what
/// it carries, how many packets wait, and how far a counter goes.
pub proof fn limits_of_the_engine()
    ensures
        MAX_PACKET == 2048,
        MAX_OBFS_PADDING == 64,
        MAX_UDP_RECV == MAX_PACKET + MAX_OBFS_PADDING,
        WG_DATA_OVERHEAD == 32,
        WG_QUEUE_DEPTH == 256,
        WG_COUNTER_MAX == u64::MAX - 1024,
{
}

/// The counter of a data packet is a little-endian number: the ninth byte is its lowest and the
/// sixteenth its highest.
pub proof fn the_counter_is_read_with_the_lowest_byte_first(data: Seq<u8>)
    requires
        data.len() >= 16,
    ensures
        data_counter(data) % 0x100 == data[8],
        data_counter(data) / 0x100 % 0x100 == data[9],
        data_counter(data) / 0x1_0000 % 0x100 == data[10],
        data_counter(data) / 0x100_0000 % 0x100 == data[11],
        data_counter(data) / 0x1_0000_0000 % 0x100 == data[12],
        data_counter(data) / 0x100_0000_0000 % 0x100 == data[13],
        data_counter(data) / 0x1_0000_0000_0000 % 0x100 == data[14],
        data_counter(data) / 0x100_0000_0000_0000 == data[15],
        0 <= data_counter(data) <= u64::MAX,
        is_exhausted(data) <==> is_data(data) && data_counter(data) > u64::MAX - 1024,
{
    let r7 = data[15] as int;
    let r6 = data[14] + 0x100 * r7;
    let r5 = data[13] + 0x100 * r6;
    let r4 = data[12] + 0x100 * r5;
    let r3 = data[11] + 0x100 * r4;
    let r2 = data[10] + 0x100 * r3;
    let r1 = data[9] + 0x100 * r2;
    let r0 = data[8] + 0x100 * r1;
    assert(data_counter(data) == r0);
    lemma_low_byte(data[8], r1);
    lemma_low_byte(data[9], r2);
    lemma_low_byte(data[10], r3);
    lemma_low_byte(data[11], r4);
    lemma_low_byte(data[12], r5);
    lemma_low_byte(data[13], r6);
    lemma_low_byte(data[14], r7);
    vstd::arithmetic::div_mod::lemma_div_denominator(r0, 0x100, 0x100);
    vstd::arithmetic::div_mod::lemma_div_denominator(r0, 0x1_0000, 0x100);
    vstd::arithmetic::div_mod::lemma_div_denominator(r0, 0x100_0000, 0x100);
    vstd::arithmetic::div_mod::lemma_div_denominator(r0, 0x1_0000_0000, 0x100);
    vstd::arithmetic::div_mod::lemma_div_denominator(r0, 0x100_0000_0000, 0x100);
    vstd::arithmetic::div_mod::lemma_div_denominator(r0, 0x1_0000_0000_0000, 0x100);
}

/// The lowest byte of a number and what stands above it.
proof fn lemma_low_byte(low: u8, rest: int)
    requires
        0 <= rest,
    ensures
        (low + 0x100 * rest) % 0x100 == low,
        (low + 0x100 * rest) / 0x100 == rest,
{
}

} // verus!
