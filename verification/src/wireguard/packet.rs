//! Wire format of the WireGuard transport: padding, recognition of messages, junk packets.
use crate::random::{random_bytes, random_u32};
use crate::wireguard::obfs::{
    in_junk_range, WgObfsConfig, WG_COOKIE_REPLY_SIZE, WG_HANDSHAKE_INIT_SIZE,
    WG_HANDSHAKE_RESPONSE_SIZE,
};
use vstd::prelude::*;

verus! {

/// Message type of a handshake initiation.
pub const WG_MSG_HANDSHAKE_INIT: u32 = 1;

/// Message type of a handshake response.
pub const WG_MSG_HANDSHAKE_RESPONSE: u32 = 2;

/// Message type of a cookie reply.
pub const WG_MSG_COOKIE_REPLY: u32 = 3;

/// Message type of a data packet.
pub const WG_MSG_DATA: u32 = 4;

/// The message type: the first four bytes as a little-endian number.
pub open spec fn msg_type_of(data: Seq<u8>) -> Option<u32> {
    if data.len() < 4 {
        None
    } else {
        Some((data[0] + 0x100 * data[1] + 0x1_0000 * data[2] + 0x100_0000 * data[3]) as u32)
    }
}

/// Reads the message type; none where the data is shorter than four bytes.
pub fn read_wg_msg_type(data: &[u8]) -> (res: Option<u32>)
    ensures
        res == msg_type_of(data@),
{
    if data.len() < 4 {
        return None;
    }
    Some(
        data[0] as u32 + 0x100 * (data[1] as u32) + 0x1_0000 * (data[2] as u32) + 0x100_0000 * (
        data[3] as u32),
    )
}

/// How many padding bytes a message gets on the wire.
pub open spec fn padding_len(data: Seq<u8>, obfs: Option<WgObfsConfig>) -> u8 {
    match (obfs, msg_type_of(data)) {
        (Some(obfs), Some(t)) => if t == WG_MSG_HANDSHAKE_INIT {
            obfs.s1
        } else if t == WG_MSG_HANDSHAKE_RESPONSE {
            obfs.s2
        } else if t == WG_MSG_COOKIE_REPLY {
            obfs.s3
        } else if t == WG_MSG_DATA {
            obfs.s4
        } else {
            0
        },
        _ => 0,
    }
}

/// The datagram that carries `data`: a data packet is followed by its padding, any other message
/// stands behind it.
pub open spec fn padded(data: Seq<u8>, padding: Seq<u8>) -> Seq<u8> {
    if msg_type_of(data) == Some(WG_MSG_DATA) {
        data + padding
    } else {
        padding + data
    }
}

/// `wire` is a datagram that carries `data`, whatever the padding bytes are.
pub open spec fn carries(wire: Seq<u8>, data: Seq<u8>, obfs: Option<WgObfsConfig>) -> bool {
    exists|padding: Seq<u8>| #[trigger]
        padded(data, padding) == wire && padding.len() == padding_len(data, obfs)
}

/// How many padding bytes [`encode_wg_packet`] puts round `data`.
pub fn wg_padding_len(data: &[u8], obfs: Option<WgObfsConfig>) -> (res: u8)
    ensures
        res == padding_len(data@, obfs),
{
    let obfs = match obfs {
        None => {
            return 0;
        },
        Some(obfs) => obfs,
    };
    match read_wg_msg_type(data) {
        Some(WG_MSG_HANDSHAKE_INIT) => obfs.s1,
        Some(WG_MSG_HANDSHAKE_RESPONSE) => obfs.s2,
        Some(WG_MSG_COOKIE_REPLY) => obfs.s3,
        Some(WG_MSG_DATA) => obfs.s4,
        _ => 0,
    }
}

/// Puts the given padding round a message.
pub fn pad_wg_packet(data: &[u8], padding: &Vec<u8>) -> (wire: Vec<u8>)
    requires
        data@.len() + padding@.len() <= usize::MAX,
    ensures
        wire@ == padded(data@, padding@),
        data@.len() >= 4 && data@[0] == 4 && data@[1] == 0 && data@[2] == 0 && data@[3] == 0
            ==> wire@ == data@ + padding@,
        !(data@.len() >= 4 && data@[0] == 4 && data@[1] == 0 && data@[2] == 0 && data@[3] == 0)
            ==> wire@ == padding@ + data@,
{
    let mut wire: Vec<u8> = Vec::new();
    let is_data = match read_wg_msg_type(data) {
        Some(t) => t == WG_MSG_DATA,
        None => false,
    };
    if is_data {
        wire.extend_from_slice(data);
        wire.extend_from_slice(padding.as_slice());
    } else {
        wire.extend_from_slice(padding.as_slice());
        wire.extend_from_slice(data);
    }
    assert(wire@ =~= padded(data@, padding@));
    wire
}

/// Encodes a message for the wire. None: the message is sent as it is, because the obfuscation is
/// off, the type is unknown, or the type gets no padding.
pub fn encode_wg_packet(data: &[u8], obfs: Option<WgObfsConfig>) -> (res: Option<Vec<u8>>)
    requires
        data@.len() + 255 <= usize::MAX,
    ensures
        res is None <==> padding_len(data@, obfs) == 0,
        res matches Some(wire) ==> carries(wire@, data@, obfs) && wire@.len() == data@.len()
            + padding_len(data@, obfs),
{
    let pad = wg_padding_len(data, obfs);
    if pad == 0 {
        return None;
    }
    let padding = random_bytes(pad as usize);
    let wire = pad_wg_packet(data, &padding);
    Some(wire)
}

/// The datagram that is sent for `packet`.
pub fn datagram_for_peer(packet: &Vec<u8>, obfs: Option<WgObfsConfig>) -> (wire: Vec<u8>)
    requires
        packet@.len() + 255 <= usize::MAX,
    ensures
        carries(wire@, packet@, obfs),
        wire@.len() == packet@.len() + padding_len(packet@, obfs),
        padding_len(packet@, obfs) == 0 ==> wire@ == packet@,
        obfs is None ==> wire@ == packet@,
{
    match encode_wg_packet(packet.as_slice(), obfs) {
        Some(wire) => {
            wire
        },
        None => {
            let wire = packet.clone();
            proof {
                assert(padded(packet@, Seq::empty()) =~= packet@);
            }
            wire
        },
    }
}

/// Why a received datagram is dropped.
#[derive(Clone, Copy, Debug, PartialEq, Eq, Structural)]
pub enum JunkReason {
    /// It has the length of a junk packet and no session is established.
    BeforeSession,
    /// It is too short to hold the padding of a data packet.
    TooShort,
}

/// What a received datagram is.
#[derive(Clone, Copy, Debug)]
pub enum WgDecodedPacket<'a> {
    /// A message without its padding.
    Packet { msg_type: u32, payload: &'a [u8] },
    /// To be dropped.
    Junk(JunkReason),
}

/// What a datagram is, over sequences.
#[verifier::ext_equal]
pub ghost enum Decoded {
    Packet { msg_type: u32, payload: Seq<u8> },
    Junk(JunkReason),
}

impl<'a> View for WgDecodedPacket<'a> {
    type V = Decoded;

    open spec fn view(&self) -> Decoded {
        match *self {
            WgDecodedPacket::Packet { msg_type, payload } => Decoded::Packet {
                msg_type,
                payload: payload@,
            },
            WgDecodedPacket::Junk(reason) => Decoded::Junk(reason),
        }
    }
}

/// Both the length and the type say that `wire` is a handshake message of the given kind, behind
/// `pad` bytes of padding.
pub open spec fn is_padded_message(wire: Seq<u8>, msg_type: u32, size: int, pad: u8) -> bool {
    wire.len() == size + pad && msg_type_of(wire.skip(pad as int)) == Some(msg_type)
}

/// `wire` is a padded handshake initiation.
pub open spec fn is_wire_init(wire: Seq<u8>, obfs: WgObfsConfig) -> bool {
    is_padded_message(wire, WG_MSG_HANDSHAKE_INIT, WG_HANDSHAKE_INIT_SIZE as int, obfs.s1)
}

/// `wire` is a padded handshake response.
pub open spec fn is_wire_response(wire: Seq<u8>, obfs: WgObfsConfig) -> bool {
    is_padded_message(wire, WG_MSG_HANDSHAKE_RESPONSE, WG_HANDSHAKE_RESPONSE_SIZE as int, obfs.s2)
}

/// `wire` is a padded cookie reply.
pub open spec fn is_wire_cookie(wire: Seq<u8>, obfs: WgObfsConfig) -> bool {
    is_padded_message(wire, WG_MSG_COOKIE_REPLY, WG_COOKIE_REPLY_SIZE as int, obfs.s3)
}

/// The message type, zero where there is none.
pub open spec fn msg_type_or_zero(data: Seq<u8>) -> u32 {
    match msg_type_of(data) {
        Some(t) => t,
        None => 0,
    }
}

/// What `wire` is to a receiver with the given parameters.
pub open spec fn decoded(
    wire: Seq<u8>,
    obfs: Option<WgObfsConfig>,
    session_established: bool,
) -> Decoded {
    match obfs {
        None => Decoded::Packet { msg_type: msg_type_or_zero(wire), payload: wire },
        Some(obfs) => if is_wire_init(wire, obfs) {
            Decoded::Packet { msg_type: WG_MSG_HANDSHAKE_INIT, payload: wire.skip(obfs.s1 as int) }
        } else if is_wire_response(wire, obfs) {
            Decoded::Packet {
                msg_type: WG_MSG_HANDSHAKE_RESPONSE,
                payload: wire.skip(obfs.s2 as int),
            }
        } else if is_wire_cookie(wire, obfs) {
            Decoded::Packet { msg_type: WG_MSG_COOKIE_REPLY, payload: wire.skip(obfs.s3 as int) }
        } else if !session_established && obfs.jmin <= wire.len() <= obfs.jmax {
            Decoded::Junk(JunkReason::BeforeSession)
        } else if wire.len() <= obfs.s4 {
            Decoded::Junk(JunkReason::TooShort)
        } else {
            let payload = wire.take(wire.len() - obfs.s4);
            Decoded::Packet { msg_type: msg_type_or_zero(payload), payload }
        },
    }
}

/// The message behind the padding, where both its length and its type match.
fn strip_handshake<'a>(data: &'a [u8], msg_type: u32, size: usize, pad: u8) -> (res: Option<
    &'a [u8],
>)
    requires
        size <= 148,
    ensures
        res is Some <==> is_padded_message(data@, msg_type, size as int, pad),
        res matches Some(payload) ==> payload@ == data@.skip(pad as int),
{
    let pad = pad as usize;
    if data.len() != size + pad {
        return None;
    }
    let payload = vstd::slice::slice_subrange(data, pad, data.len());
    assert(payload@ =~= data@.skip(pad as int));
    match read_wg_msg_type(payload) {
        Some(t) => if t == msg_type {
            Some(payload)
        } else {
            None
        },
        None => None,
    }
}

/// Decodes a received datagram.
///
/// With the obfuscation off it is passed on as it is. Otherwise a handshake message must match in
/// length and type; a datagram with the length of a junk packet is dropped until the session is
/// established; anything else is taken as a data packet, whose padding is cut off.
pub fn decode_wg_packet<'a>(
    data: &'a [u8],
    obfs: Option<WgObfsConfig>,
    session_established: bool,
) -> (res: WgDecodedPacket<'a>)
    ensures
        res@ == decoded(data@, obfs, session_established),
{
    let obfs = match obfs {
        None => {
            let msg_type: u32 = match read_wg_msg_type(data) {
                Some(t) => t,
                None => 0,
            };
            return WgDecodedPacket::Packet { msg_type, payload: data };
        },
        Some(obfs) => obfs,
    };
    if let Some(payload) = strip_handshake(
        data,
        WG_MSG_HANDSHAKE_INIT,
        WG_HANDSHAKE_INIT_SIZE,
        obfs.s1,
    ) {
        return WgDecodedPacket::Packet { msg_type: WG_MSG_HANDSHAKE_INIT, payload };
    }
    if let Some(payload) = strip_handshake(
        data,
        WG_MSG_HANDSHAKE_RESPONSE,
        WG_HANDSHAKE_RESPONSE_SIZE,
        obfs.s2,
    ) {
        return WgDecodedPacket::Packet { msg_type: WG_MSG_HANDSHAKE_RESPONSE, payload };
    }
    if let Some(payload) = strip_handshake(
        data,
        WG_MSG_COOKIE_REPLY,
        WG_COOKIE_REPLY_SIZE,
        obfs.s3,
    ) {
        return WgDecodedPacket::Packet { msg_type: WG_MSG_COOKIE_REPLY, payload };
    }
    if !session_established && in_junk_range(data.len(), obfs.jmin, obfs.jmax) {
        return WgDecodedPacket::Junk(JunkReason::BeforeSession);
    }
    if data.len() <= obfs.s4 as usize {
        return WgDecodedPacket::Junk(JunkReason::TooShort);
    }
    let end: usize = data.len() - obfs.s4 as usize;
    let payload = vstd::slice::slice_subrange(data, 0, end);
    assert(payload@ =~= data@.take(data@.len() - obfs.s4));
    let msg_type: u32 = match read_wg_msg_type(payload) {
        Some(t) => t,
        None => 0,
    };
    WgDecodedPacket::Packet { msg_type, payload }
}

/// The length of a junk packet for one random number.
pub fn junk_packet_len(obfs: &WgObfsConfig, random: u32) -> (len: usize)
    requires
        obfs.jmin <= obfs.jmax,
    ensures
        len == obfs.jmin + random as int % (obfs.jmax - obfs.jmin + 1),
        obfs.jmin <= len <= obfs.jmax,
{
    let span: u32 = (obfs.jmax - obfs.jmin) as u32;
    obfs.jmin as usize + (random % (span + 1)) as usize
}

/// The junk packets that precede a handshake: as many as the parameters say, each of a random
/// length in their range and with random content.
pub fn make_obfs_junk_packets(obfs: &WgObfsConfig) -> (packets: Vec<Vec<u8>>)
    requires
        obfs.jmin <= obfs.jmax,
    ensures
        packets@.len() == obfs.jc,
        forall|i: int| #![trigger packets@[i]]
            0 <= i < packets@.len() ==> obfs.jmin <= packets@[i]@.len() <= obfs.jmax,
{
    let mut packets: Vec<Vec<u8>> = Vec::new();
    if !obfs.junk_enabled() {
        return packets;
    }
    let mut i: u8 = 0;
    while i < obfs.jc
        invariant
            i <= obfs.jc,
            obfs.jmin <= obfs.jmax,
            packets@.len() == i,
            forall|k: int| #![trigger packets@[k]]
                0 <= k < packets@.len() ==> obfs.jmin <= packets@[k]@.len() <= obfs.jmax,
        decreases obfs.jc - i,
    {
        let len = junk_packet_len(obfs, random_u32());
        packets.push(random_bytes(len));
        i = i + 1;
    }
    packets
}

/// A message as WireGuard writes it: one of the four types, at its size.
pub open spec fn is_wg_message(data: Seq<u8>) -> bool {
    ||| msg_type_of(data) == Some(WG_MSG_HANDSHAKE_INIT) && data.len() == WG_HANDSHAKE_INIT_SIZE
    ||| msg_type_of(data) == Some(WG_MSG_HANDSHAKE_RESPONSE) && data.len()
        == WG_HANDSHAKE_RESPONSE_SIZE
    ||| msg_type_of(data) == Some(WG_MSG_COOKIE_REPLY) && data.len() == WG_COOKIE_REPLY_SIZE
    ||| msg_type_of(data) == Some(WG_MSG_DATA)
}

/// The receiver takes `wire` for a handshake message other than `data`, or for junk: the padding
/// is random, so a datagram can look like a message of another kind.
pub open spec fn is_mistaken(
    wire: Seq<u8>,
    data: Seq<u8>,
    obfs: Option<WgObfsConfig>,
    session_established: bool,
) -> bool {
    match obfs {
        None => false,
        Some(obfs) => {
            let t = msg_type_of(data);
            ||| t != Some(WG_MSG_HANDSHAKE_INIT) && is_wire_init(wire, obfs)
            ||| (t == Some(WG_MSG_COOKIE_REPLY) || t == Some(WG_MSG_DATA)) && is_wire_response(
                wire,
                obfs,
            )
            ||| t == Some(WG_MSG_DATA) && (is_wire_cookie(wire, obfs) || !session_established
                && obfs.jmin <= wire.len() <= obfs.jmax)
        },
    }
}

/// What one end encodes the other end decodes: with equal parameters a message comes out of its
/// datagram with its type and its bytes, unless the datagram is mistaken for something else.
pub proof fn decode_gives_back_what_was_encoded(
    data: Seq<u8>,
    wire: Seq<u8>,
    obfs: Option<WgObfsConfig>,
    session_established: bool,
)
    requires
        is_wg_message(data),
        carries(wire, data, obfs),
        !is_mistaken(wire, data, obfs, session_established),
    ensures
        decoded(wire, obfs, session_established) == (Decoded::Packet {
            msg_type: msg_type_of(data).unwrap(),
            payload: data,
        }),
{
    let padding = choose|padding: Seq<u8>| #[trigger]
        padded(data, padding) == wire && padding.len() == padding_len(data, obfs);
    match obfs {
        None => {
            assert(wire =~= data);
        },
        Some(cfg) => {
            if msg_type_of(data) == Some(WG_MSG_DATA) {
                assert(wire.take(wire.len() - cfg.s4) =~= data);
            } else {
                assert(wire.skip(padding.len() as int) =~= data);
            }
        },
    }
}

/// A handshake initiation is never mistaken: it is decoded whatever the session's state is.
pub proof fn handshake_init_is_always_decoded(
    data: Seq<u8>,
    wire: Seq<u8>,
    obfs: Option<WgObfsConfig>,
    session_established: bool,
)
    requires
        msg_type_of(data) == Some(WG_MSG_HANDSHAKE_INIT),
        data.len() == WG_HANDSHAKE_INIT_SIZE,
        carries(wire, data, obfs),
    ensures
        decoded(wire, obfs, session_established) == (Decoded::Packet {
            msg_type: WG_MSG_HANDSHAKE_INIT,
            payload: data,
        }),
{
    decode_gives_back_what_was_encoded(data, wire, obfs, session_established);
}

/// With the built-in parameters no handshake message is mistaken for another or for junk.
pub proof fn builtin_parameters_keep_handshakes_apart(
    data: Seq<u8>,
    wire: Seq<u8>,
    session_established: bool,
)
    requires
        is_wg_message(data),
        msg_type_of(data) != Some(WG_MSG_DATA),
        carries(wire, data, Some(WgObfsConfig::spec_builtin_default())),
    ensures
        !is_mistaken(wire, data, Some(WgObfsConfig::spec_builtin_default()), session_established),
{
    let obfs = Some(WgObfsConfig::spec_builtin_default());
    let padding = choose|padding: Seq<u8>| #[trigger]
        padded(data, padding) == wire && padding.len() == padding_len(data, obfs);
    assert(wire.len() == data.len() + padding.len());
}

/// With the obfuscation off every datagram goes out and comes in as it is.
pub proof fn disabled_obfuscation_is_transparent(
    data: Seq<u8>,
    wire: Seq<u8>,
    session_established: bool,
)
    requires
        carries(wire, data, None),
    ensures
        wire == data,
        decoded(wire, None, session_established) == (Decoded::Packet {
            msg_type: msg_type_or_zero(data),
            payload: data,
        }),
{
    let padding = choose|padding: Seq<u8>| #[trigger]
        padded(data, padding) == wire && padding.len() == padding_len(data, None);
    assert(wire =~= data);
}

/// Under parameters that send junk, a datagram with the length of a junk packet is dropped while
/// no session is established, and is no handshake message.
pub proof fn junk_is_dropped_before_the_session(wire: Seq<u8>, obfs: WgObfsConfig)
    requires
        obfs.valid(),
        obfs.jc > 0,
        obfs.jmin <= wire.len() <= obfs.jmax,
    ensures
        decoded(wire, Some(obfs), false) == Decoded::Junk(JunkReason::BeforeSession),
{
}

/// Once the session is established only a datagram too short for the padding is dropped.
pub proof fn established_session_drops_only_short_datagrams(wire: Seq<u8>, obfs: WgObfsConfig)
    ensures
        decoded(wire, Some(obfs), true) is Junk <==> wire.len() <= obfs.s4 && !is_wire_init(
            wire,
            obfs,
        ) && !is_wire_response(wire, obfs) && !is_wire_cookie(wire, obfs),
{
}

/// The type is a little-endian number: the first byte is its lowest, the fourth its highest. Fewer
/// than four bytes have no type.
pub proof fn the_type_is_read_with_the_lowest_byte_first(data: Seq<u8>)
    ensures
        msg_type_of(data) is Some <==> data.len() >= 4,
        msg_type_of(data) matches Some(t) ==> t % 256 == data[0] && (t / 256) % 256 == data[1] && (t
            / 65536) % 256 == data[2] && t / 16777216 == data[3],
        msg_type_or_zero(data) == (if data.len() < 4 {
            0int
        } else {
            data[0] + 256 * data[1] + 65536 * data[2] + 16777216 * data[3]
        }),
{
}

/// Each of the four types has a padding of its own, and anything else has none: neither a message of
/// another type, nor one too short to have a type, nor any message while the obfuscation is off.
pub proof fn each_type_has_its_padding(data: Seq<u8>, obfs: WgObfsConfig)
    ensures
        padding_len(data, None) == 0,
        data.len() < 4 ==> padding_len(data, Some(obfs)) == 0,
        data.len() >= 4 && (data[1] != 0 || data[2] != 0 || data[3] != 0 || data[0] == 0 || data[0]
            > 4) ==> padding_len(data, Some(obfs)) == 0,
        data.len() >= 4 && data[1] == 0 && data[2] == 0 && data[3] == 0 ==> {
            &&& data[0] == 1 ==> padding_len(data, Some(obfs)) == obfs.s1
            &&& data[0] == 2 ==> padding_len(data, Some(obfs)) == obfs.s2
            &&& data[0] == 3 ==> padding_len(data, Some(obfs)) == obfs.s3
            &&& data[0] == 4 ==> padding_len(data, Some(obfs)) == obfs.s4
        },
{
}

/// On the wire a data packet stands in front of its padding and any other message behind it, and
/// nothing else is there.
pub proof fn messages_stand_whole_on_the_wire(
    data: Seq<u8>,
    wire: Seq<u8>,
    obfs: Option<WgObfsConfig>,
)
    requires
        carries(wire, data, obfs),
    ensures
        wire.len() == data.len() + padding_len(data, obfs),
        data.len() >= 4 && data[0] == 4 && data[1] == 0 && data[2] == 0 && data[3] == 0
            ==> wire.take(data.len() as int) == data,
        !(data.len() >= 4 && data[0] == 4 && data[1] == 0 && data[2] == 0 && data[3] == 0)
            ==> wire.skip(padding_len(data, obfs) as int) == data,
{
    let padding = choose|padding: Seq<u8>| #[trigger]
        padded(data, padding) == wire && padding.len() == padding_len(data, obfs);
    if msg_type_of(data) == Some(WG_MSG_DATA) {
        assert(wire.take(data.len() as int) =~= data);
    } else {
        assert(wire.skip(padding.len() as int) =~= data);
    }
}

/// Whatever the padding bytes are, a message with as many of them as its type asks for, on the side
/// that its type asks for, is carried.
pub proof fn any_padding_bytes_will_do(data: Seq<u8>, padding: Seq<u8>, obfs: WgObfsConfig)
    requires
        data.len() >= 4,
        data[1] == 0,
        data[2] == 0,
        data[3] == 0,
    ensures
        data[0] == 1 && padding.len() == obfs.s1 ==> carries(padding + data, data, Some(obfs)),
        data[0] == 2 && padding.len() == obfs.s2 ==> carries(padding + data, data, Some(obfs)),
        data[0] == 3 && padding.len() == obfs.s3 ==> carries(padding + data, data, Some(obfs)),
        data[0] == 4 && padding.len() == obfs.s4 ==> carries(data + padding, data, Some(obfs)),
        padded(data, padding).len() == data.len() + padding.len(),
{
    if data[0] == 4 {
        assert(padded(data, padding) == data + padding);
    } else {
        assert(padded(data, padding) == padding + data);
    }
}

/// A datagram of the length of a padded initiation whose bytes behind the padding start like one is
/// an initiation, before anything else is considered.
pub proof fn padded_initiations_are_recognised(
    wire: Seq<u8>,
    obfs: WgObfsConfig,
    session_established: bool,
)
    requires
        wire.len() == 148 + obfs.s1,
        wire[obfs.s1 as int] == 1,
        wire[obfs.s1 + 1] == 0,
        wire[obfs.s1 + 2] == 0,
        wire[obfs.s1 + 3] == 0,
    ensures
        decoded(wire, Some(obfs), session_established) == (Decoded::Packet {
            msg_type: 1,
            payload: wire.skip(obfs.s1 as int),
        }),
{
}

/// So are responses, unless the datagram is an initiation.
pub proof fn padded_responses_are_recognised(
    wire: Seq<u8>,
    obfs: WgObfsConfig,
    session_established: bool,
)
    requires
        wire.len() != 148 + obfs.s1 || wire[obfs.s1 as int] != 1,
        wire.len() == 92 + obfs.s2,
        wire[obfs.s2 as int] == 2,
        wire[obfs.s2 + 1] == 0,
        wire[obfs.s2 + 2] == 0,
        wire[obfs.s2 + 3] == 0,
    ensures
        decoded(wire, Some(obfs), session_established) == (Decoded::Packet {
            msg_type: 2,
            payload: wire.skip(obfs.s2 as int),
        }),
{
    if wire.len() == 148 + obfs.s1 {
        assert(wire.skip(obfs.s1 as int)[0] == wire[obfs.s1 as int]);
    }
}

/// So are cookie replies, unless the datagram is an initiation or a response.
pub proof fn padded_cookies_are_recognised(
    wire: Seq<u8>,
    obfs: WgObfsConfig,
    session_established: bool,
)
    requires
        wire.len() != 148 + obfs.s1 || wire[obfs.s1 as int] != 1,
        wire.len() != 92 + obfs.s2 || wire[obfs.s2 as int] != 2,
        wire.len() == 64 + obfs.s3,
        wire[obfs.s3 as int] == 3,
        wire[obfs.s3 + 1] == 0,
        wire[obfs.s3 + 2] == 0,
        wire[obfs.s3 + 3] == 0,
    ensures
        decoded(wire, Some(obfs), session_established) == (Decoded::Packet {
            msg_type: 3,
            payload: wire.skip(obfs.s3 as int),
        }),
{
    if wire.len() == 148 + obfs.s1 {
        assert(wire.skip(obfs.s1 as int)[0] == wire[obfs.s1 as int]);
    }
    if wire.len() == 92 + obfs.s2 {
        assert(wire.skip(obfs.s2 as int)[0] == wire[obfs.s2 as int]);
    }
}

/// Any other datagram is junk while no session is established and its length is that of a junk
/// packet. It is junk too where the padding of a data packet leaves nothing of it. Otherwise it is
/// taken without that padding, with the type that it starts with.
pub proof fn other_datagrams_are_junk_or_data(
    wire: Seq<u8>,
    obfs: WgObfsConfig,
    session_established: bool,
)
    requires
        wire.len() != 148 + obfs.s1 || wire[obfs.s1 as int] != 1 || wire[obfs.s1 + 1] != 0
            || wire[obfs.s1 + 2] != 0 || wire[obfs.s1 + 3] != 0,
        wire.len() != 92 + obfs.s2 || wire[obfs.s2 as int] != 2 || wire[obfs.s2 + 1] != 0
            || wire[obfs.s2 + 2] != 0 || wire[obfs.s2 + 3] != 0,
        wire.len() != 64 + obfs.s3 || wire[obfs.s3 as int] != 3 || wire[obfs.s3 + 1] != 0
            || wire[obfs.s3 + 2] != 0 || wire[obfs.s3 + 3] != 0,
    ensures
        !session_established && obfs.jmin <= wire.len() && wire.len() <= obfs.jmax ==> decoded(
            wire,
            Some(obfs),
            session_established,
        ) == Decoded::Junk(JunkReason::BeforeSession),
        (session_established || wire.len() < obfs.jmin || wire.len() > obfs.jmax) && wire.len()
            <= obfs.s4 ==> decoded(wire, Some(obfs), session_established) == Decoded::Junk(
            JunkReason::TooShort,
        ),
        (session_established || wire.len() < obfs.jmin || wire.len() > obfs.jmax) && wire.len()
            > obfs.s4 ==> (decoded(wire, Some(obfs), session_established) matches Decoded::Packet {
            msg_type,
            payload,
        } && payload == wire.take(wire.len() - obfs.s4) && msg_type == (if payload.len() < 4 {
            0int
        } else {
            wire[0] + 256 * wire[1] + 65536 * wire[2] + 16777216 * wire[3]
        })),
{
    the_type_is_read_with_the_lowest_byte_first(wire.skip(obfs.s1 as int));
    the_type_is_read_with_the_lowest_byte_first(wire.skip(obfs.s2 as int));
    the_type_is_read_with_the_lowest_byte_first(wire.skip(obfs.s3 as int));
    if wire.len() > obfs.s4 {
        the_type_is_read_with_the_lowest_byte_first(wire.take(wire.len() - obfs.s4));
    }
}

/// What was decoded is shown as it is.
pub proof fn decoded_packets_are_shown_as_they_are<'a>(
    msg_type: u32,
    payload: &'a [u8],
    reason: JunkReason,
)
    ensures
        (WgDecodedPacket::Packet { msg_type, payload })@ == (Decoded::Packet {
            msg_type,
            payload: payload@,
        }),
        WgDecodedPacket::<'a>::Junk(reason)@ == Decoded::Junk(reason),
{
}

/// The types of the messages, as WireGuard numbers them.
pub proof fn message_types_by_number()
    ensures
        WG_MSG_HANDSHAKE_INIT == 1,
        WG_MSG_HANDSHAKE_RESPONSE == 2,
        WG_MSG_COOKIE_REPLY == 3,
        WG_MSG_DATA == 4,
{
}

/// A junk packet has a length of the range, and every length of it can come up.
pub proof fn junk_has_any_length_of_its_range(
    obfs: WgObfsConfig,
    random: u32,
    len: usize,
)
    requires
        obfs.jmin <= obfs.jmax,
        call_ensures(junk_packet_len, (&obfs, random), len),
    ensures
        obfs.jmin <= len <= obfs.jmax,
        random <= obfs.jmax - obfs.jmin ==> len == obfs.jmin + random,
{
    if random <= obfs.jmax - obfs.jmin {
        vstd::arithmetic::div_mod::lemma_small_mod(
            random as nat,
            (obfs.jmax - obfs.jmin + 1) as nat,
        );
    }
}

/// With the obfuscation off every datagram is taken whole, with the type that it starts with.
pub proof fn plain_datagrams_are_taken_whole(wire: Seq<u8>, session_established: bool)
    ensures
        decoded(wire, None, session_established) matches Decoded::Packet { msg_type, payload }
            && payload == wire && msg_type == (if wire.len() < 4 {
            0int
        } else {
            wire[0] + 256 * wire[1] + 65536 * wire[2] + 16777216 * wire[3]
        }),
{
    the_type_is_read_with_the_lowest_byte_first(wire);
}

} // verus!
