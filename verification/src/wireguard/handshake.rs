//! The client's wait for the handshake: no tunnel is handed out before its session is established.
use crate::clock::{Duration, Instant, NANOS_PER_MILLI, NANOS_PER_SEC};
use crate::wireguard::obfs::WgObfsConfig;
use crate::wireguard::packet::{
    decode_wg_packet, decoded, Decoded, JunkReason, WgDecodedPacket, WG_MSG_HANDSHAKE_INIT,
    WG_MSG_HANDSHAKE_RESPONSE,
};
use crate::wireguard::peer_data::{
    engine_allows, handshake_after_datagram, is_unfed, queue_after_datagram, WgPeerData,
};
use crate::wireguard::tunn::{
    is_data, is_init, is_response, open_datagram, tunn_session_established, Outcome, TunnOutcome,
};
use vstd::prelude::*;

verus! {

/// How long the client waits for the handshake.
pub const WG_HANDSHAKE_TIMEOUT_SECS: u64 = 5;

/// How long the client waits before it repeats the initiation.
pub const WG_HANDSHAKE_RETRY_MILLIS: u64 = 2000;

/// Why the wait ended without a session.
#[derive(Clone, Copy, Debug, PartialEq, Eq, Structural)]
pub enum HandshakeError {
    /// No valid answer came in time.
    Timeout,
}

/// The times of one wait.
#[derive(Clone, Copy, Debug, PartialEq, Eq, Structural)]
pub struct HandshakeWait {
    pub deadline: Instant,
    pub next_retry: Instant,
}

/// What to do when nothing was received until the wait woke up.
#[derive(Clone, Copy, Debug, PartialEq, Eq, Structural)]
pub enum OnQuiet {
    /// The wait is over.
    GiveUp(HandshakeError),
    /// Repeat the initiation.
    Repeat,
}

impl HandshakeWait {
    /// Until when to listen.
    pub open spec fn wakes_at(self) -> int {
        if self.next_retry.nanos <= self.deadline.nanos {
            self.next_retry.nanos as int
        } else {
            self.deadline.nanos as int
        }
    }

    /// What to do when nothing was received until `now`.
    pub open spec fn when_quiet(self, now: Instant) -> OnQuiet {
        if now.nanos >= self.deadline.nanos {
            OnQuiet::GiveUp(HandshakeError::Timeout)
        } else {
            OnQuiet::Repeat
        }
    }

    /// The wait that begins at `now`.
    pub fn start(now: Instant) -> (wait: HandshakeWait)
        requires
            now.nanos + WG_HANDSHAKE_TIMEOUT_SECS * NANOS_PER_SEC <= u64::MAX,
        ensures
            wait.deadline.nanos == now.nanos + WG_HANDSHAKE_TIMEOUT_SECS * NANOS_PER_SEC,
            wait.next_retry.nanos == now.nanos + WG_HANDSHAKE_RETRY_MILLIS * NANOS_PER_MILLI,
            wait.deadline.nanos == now.nanos + 5_000_000_000,
            wait.next_retry.nanos == now.nanos + 2_000_000_000,
    {
        HandshakeWait {
            deadline: now.after(Duration::from_secs(WG_HANDSHAKE_TIMEOUT_SECS)),
            next_retry: now.after(Duration::from_millis(WG_HANDSHAKE_RETRY_MILLIS)),
        }
    }

    /// Until when to listen: the next repetition or the deadline, whichever is first.
    pub fn wake(&self) -> (t: Instant)
        ensures
            t.nanos == self.wakes_at(),
    {
        if self.next_retry.nanos <= self.deadline.nanos {
            self.next_retry
        } else {
            self.deadline
        }
    }

    /// Decides what to do when nothing was received until `now`.
    pub fn on_quiet(&self, now: Instant) -> (res: OnQuiet)
        ensures
            res == self.when_quiet(now),
    {
        if now.nanos >= self.deadline.nanos {
            OnQuiet::GiveUp(HandshakeError::Timeout)
        } else {
            OnQuiet::Repeat
        }
    }

    /// The initiation was repeated; the next repetition is due an interval after `now`.
    pub fn repeated(&mut self, now: Instant)
        requires
            now.nanos + WG_HANDSHAKE_RETRY_MILLIS * NANOS_PER_MILLI <= u64::MAX,
        ensures
            final(self).deadline == old(self).deadline,
            final(self).next_retry.nanos == now.nanos + WG_HANDSHAKE_RETRY_MILLIS
                * NANOS_PER_MILLI,
            final(self).next_retry.nanos == now.nanos + 2_000_000_000,
    {
        self.next_retry = now.after(Duration::from_millis(WG_HANDSHAKE_RETRY_MILLIS));
    }
}

/// What came of a datagram during the wait.
#[derive(Debug)]
pub enum WaitPacket {
    /// It was junk.
    Dropped,
    /// The engine refused it.
    Refused,
    /// The engine took it. `handshake`: it was a handshake message.
    Processed { handshake: bool },
    /// The engine took it; send this message to the peer, then what waits in the queue.
    Reply { packet: Vec<u8>, handshake: bool },
}

/// What came of a datagram during the wait, over sequences.
#[verifier::ext_equal]
pub ghost enum Waited {
    Dropped,
    Refused,
    Processed { handshake: bool },
    Reply { packet: Seq<u8>, handshake: bool },
}

impl View for WaitPacket {
    type V = Waited;

    open spec fn view(&self) -> Waited {
        match *self {
            WaitPacket::Dropped => Waited::Dropped,
            WaitPacket::Refused => Waited::Refused,
            WaitPacket::Processed { handshake } => Waited::Processed { handshake },
            WaitPacket::Reply { packet, handshake } => Waited::Reply { packet: packet@, handshake },
        }
    }
}

/// Whether messages of this type belong to the handshake.
pub open spec fn is_handshake_type(msg_type: u32) -> bool {
    msg_type == WG_MSG_HANDSHAKE_INIT || msg_type == WG_MSG_HANDSHAKE_RESPONSE
}

/// What comes of a decoded datagram during the wait, given what the engine makes of it. An IP
/// packet is not forwarded: there is no tunnel yet.
pub open spec fn waited(d: Decoded, out: Outcome) -> Waited {
    match d {
        Decoded::Junk(_) => Waited::Dropped,
        Decoded::Packet { msg_type, .. } => match out {
            Outcome::ToNetwork(packet) => Waited::Reply {
                packet,
                handshake: is_handshake_type(msg_type),
            },
            Outcome::Failed { .. } => Waited::Refused,
            _ => Waited::Processed { handshake: is_handshake_type(msg_type) },
        },
    }
}

/// Decides what comes of a message of the given type during the wait.
pub fn handle_handshake_wait_packet(msg_type: u32, out: TunnOutcome) -> (res: WaitPacket)
    ensures
        forall|payload: Seq<u8>|
            res@ == #[trigger] waited(Decoded::Packet { msg_type, payload }, out@),
        out@ is Failed <==> res is Refused,
        out@ is ToNetwork <==> res is Reply,
        res matches WaitPacket::Processed { handshake } ==> handshake == (msg_type == 1 || msg_type
            == 2),
        res matches WaitPacket::Reply { packet, handshake } ==> handshake == (msg_type == 1
            || msg_type == 2) && out@ == Outcome::ToNetwork(packet@),
{
    let handshake = msg_type == WG_MSG_HANDSHAKE_INIT || msg_type == WG_MSG_HANDSHAKE_RESPONSE;
    match out {
        TunnOutcome::ToNetwork(packet) => WaitPacket::Reply { packet, handshake },
        TunnOutcome::Failed { expired: _ } => WaitPacket::Refused,
        _ => WaitPacket::Processed { handshake },
    }
}

/// Whether the wait is over: a handshake message was processed and the session is established.
pub fn handshake_complete(handshake: bool, processed: bool, session_established: bool) -> (res:
    bool)
    ensures
        res == (handshake && processed && session_established),
{
    handshake && processed && session_established
}

impl WgPeerData {
    /// Decodes a datagram that came during the wait and hands it to the engine.
    pub fn handle_wait_datagram(&mut self, datagram: &[u8]) -> (res: WaitPacket)
        ensures
            final(self).same_options(*old(self)),
            old(self).established() ==> final(self).established(),
            res@ matches Waited::Reply { packet, .. } ==> (is_data(packet)
                ==> final(self).established()),
            ({
                let d = decoded(datagram@, old(self).obfs, old(self).established());
                exists|out: Outcome| #[trigger]
                    waited(d, out) == res@ && engine_allows(
                        d,
                        old(self).queue(),
                        old(self).established(),
                        old(self).in_handshake(),
                        out,
                    ) && handshake_after_datagram(d, *old(self), out, final(self).in_handshake())
            }),
            is_unfed(decoded(datagram@, old(self).obfs, old(self).established())) ==> *final(self)
                == *old(self),
            final(self).queue() == queue_after_datagram(
                decoded(datagram@, old(self).obfs, old(self).established()),
                old(self).queue(),
                old(self).established(),
            ),
    {
        let established_before = tunn_session_established(&self.tunn);
        match decode_wg_packet(datagram, self.obfs, established_before) {
            WgDecodedPacket::Junk(_) => {
                let res = WaitPacket::Dropped;
                proof {
                    let d = decoded(datagram@, old(self).obfs, established_before);
                    assert(waited(d, Outcome::Done) == res@);
                    assert(engine_allows(
                        d,
                        old(self).queue(),
                        established_before,
                        old(self).in_handshake(),
                        Outcome::Done,
                    ));
                }
                res
            },
            WgDecodedPacket::Packet { msg_type, payload } => {
                let out = open_datagram(&mut self.tunn, payload);
                let ghost out_view = out@;
                let res = handle_handshake_wait_packet(msg_type, out);
                proof {
                    let d = decoded(datagram@, old(self).obfs, established_before);
                    assert(waited(d, out_view) == res@);
                    assert(engine_allows(
                        d,
                        old(self).queue(),
                        established_before,
                        old(self).in_handshake(),
                        out_view,
                    ));
                }
                res
            },
        }
    }
}

/// Only a handshake message that the engine answered can end the wait: an initiation that is
/// answered by a response, or a response that is answered by an empty data packet.
pub proof fn only_an_answered_handshake_message_ends_the_wait(
    datagram: Seq<u8>,
    obfs: Option<WgObfsConfig>,
    queue: Seq<Seq<u8>>,
    established: bool,
    in_handshake: bool,
    out: Outcome,
)
    requires
        engine_allows(decoded(datagram, obfs, established), queue, established, in_handshake, out),
    ensures
        waited(decoded(datagram, obfs, established), out) != (Waited::Processed {
            handshake: true,
        }),
        waited(decoded(datagram, obfs, established), out) matches Waited::Reply {
            packet,
            handshake: true,
        } ==> (decoded(datagram, obfs, established) matches Decoded::Packet { payload, .. } && (
        is_init(payload) && is_response(packet) || is_response(payload) && is_data(packet))),
{
}

/// The wait never outlasts its deadline: it listens no longer than until then, and gives up at the
/// first quiet moment from then on.
pub proof fn the_wait_ends_at_the_deadline(wait: HandshakeWait, now: Instant)
    requires
        now.nanos >= wait.deadline.nanos,
    ensures
        wait.when_quiet(now) == OnQuiet::GiveUp(HandshakeError::Timeout),
        wait.wakes_at() <= now.nanos,
{
}

/// The wait listens until the next repetition or the deadline, whichever is first.
pub proof fn the_wait_wakes_at_the_first_of_its_times(wait: HandshakeWait)
    ensures
        wait.wakes_at() <= wait.deadline.nanos,
        wait.wakes_at() <= wait.next_retry.nanos,
        wait.wakes_at() == wait.deadline.nanos || wait.wakes_at() == wait.next_retry.nanos,
{
}

/// Before the deadline a quiet moment leads to a repetition, from the deadline on to the end.
pub proof fn the_initiation_is_repeated_until_the_deadline(wait: HandshakeWait, now: Instant)
    ensures
        now.nanos < wait.deadline.nanos <==> wait.when_quiet(now) == OnQuiet::Repeat,
        now.nanos >= wait.deadline.nanos <==> wait.when_quiet(now) == OnQuiet::GiveUp(
            HandshakeError::Timeout,
        ),
{
}

/// During the wait a datagram is dropped exactly where it is junk and refused exactly where the
/// engine refuses it; what the engine gives for the network is sent as it is. Only messages of the
/// types 1 and 2, the initiation and the response, count as handshake messages.
pub proof fn what_comes_of_a_datagram_during_the_wait(
    msg_type: u32,
    payload: Seq<u8>,
    packet: Seq<u8>,
    out: Outcome,
    reason: JunkReason,
)
    ensures
        waited(Decoded::Junk(reason), out) == Waited::Dropped,
        waited(Decoded::Packet { msg_type, payload }, out) == Waited::Refused <==> out is Failed,
        waited(Decoded::Packet { msg_type, payload }, Outcome::ToNetwork(packet)) == (
        Waited::Reply { packet, handshake: msg_type == 1 || msg_type == 2 }),
        !(out is Failed) && !(out is ToNetwork) ==> waited(
            Decoded::Packet { msg_type, payload },
            out,
        ) == (Waited::Processed { handshake: msg_type == 1 || msg_type == 2 }),
{
}

/// What came of a datagram is shown as it is.
pub proof fn wait_packets_are_shown_as_they_are(packet: Vec<u8>, handshake: bool)
    ensures
        WaitPacket::Dropped@ == Waited::Dropped,
        WaitPacket::Refused@ == Waited::Refused,
        (WaitPacket::Processed { handshake })@ == (Waited::Processed { handshake }),
        (WaitPacket::Reply { packet, handshake })@ == (Waited::Reply { packet: packet@, handshake }),
{
}

/// The wait is over only once a handshake message was processed and the session is established; none
/// of the three is enough without the others.
pub proof fn what_completes_the_handshake(
    handshake: bool,
    processed: bool,
    established: bool,
    res: bool,
)
    requires
        call_ensures(handshake_complete, (handshake, processed, established), res),
    ensures
        res ==> handshake && processed && established,
        handshake && processed && established ==> res,
{
}

/// A wait that starts ends five seconds later, and its initiation is repeated after two.
pub proof fn how_long_the_wait_lasts(now: Instant, wait: HandshakeWait)
    requires
        now.nanos + 5_000_000_000 <= u64::MAX,
        call_ensures(HandshakeWait::start, (now,), wait),
    ensures
        wait.deadline.nanos == now.nanos + 5_000_000_000,
        wait.next_retry.nanos == now.nanos + 2_000_000_000,
        wait.wakes_at() == now.nanos + 2_000_000_000,
{
}

} // verus!
