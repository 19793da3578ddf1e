//! # WebSocket gateway
//!
//! What the gateway decides for its clients: who may register, what a client's frame asks for,
//! where a message goes, and what a profile operation is answered. Sockets, channels and the peer
//! network are outside: they hand in what happened and carry out what is returned.
//!
//! A message is relayed to a client of this node if one takes it. If none does, it is published for
//! the clients of other nodes and stored in the recipient's mailbox, and the sender is told that the
//! recipient is offline. It counts as delivered only once a client has taken it.

use crate::bytes::{push_le16, slice_of};
use crate::delivered;
use crate::delivered::{payload_hash, DeliveredSets};
use crate::dht;
use crate::dht::{decode_mailbox_message, encode_mailbox_message};
use crate::encoding;
use crate::encoding::hex_encode;
use crate::text;
use crate::text::push_decimal;
use vstd::prelude::*;

verus! {

/// Length of the search index in front of a profile.
pub const PROFILE_INDEX_LEN: usize = 32;

// ── Registration ────────────────────────────────────────────────────

/// What came first on a new connection.
#[derive(Debug)]
pub enum FirstMessage {
    /// A binary message.
    Binary(Vec<u8>),
    /// A message of another kind.
    NotBinary,
    /// The socket failed.
    Failed,
    /// The client left.
    Gone,
}

/// What becomes of a new connection.
#[derive(Debug)]
pub enum Registration {
    /// The client is known by this identifier and listens on this topic.
    Accepted { session_id: Vec<u8>, topic: String },
    /// The first message was not binary.
    NotBinary,
    /// The socket failed before registration.
    Failed,
    /// The client left before registration.
    Gone,
    /// The identifier was empty.
    EmptyId,
}

/// A client registers with its identifier, which is the whole first message; its topic is the
/// identifier in hexadecimal. Any other start ends the connection.
pub fn register_client(first: FirstMessage) -> (r: Registration)
    ensures
        match first {
            FirstMessage::Binary(d) => if d@.len() == 0 {
                r is EmptyId
            } else {
                r matches Registration::Accepted { session_id, topic } && session_id@ == d@ && topic@
                    == encoding::hex_text(d@)
            },
            FirstMessage::NotBinary => r is NotBinary,
            FirstMessage::Failed => r is Failed,
            FirstMessage::Gone => r is Gone,
        },
{
    match first {
        FirstMessage::Binary(session_id) => {
            if session_id.len() == 0 {
                return Registration::EmptyId;
            }
            let topic = hex_encode(&session_id);
            Registration::Accepted { session_id, topic }
        },
        FirstMessage::NotBinary => Registration::NotBinary,
        FirstMessage::Failed => Registration::Failed,
        FirstMessage::Gone => Registration::Gone,
    }
}

// ── Frames of a registered client ───────────────────────────────────

/// What a registered client's socket yields.
#[derive(Debug)]
pub enum ClientEvent {
    Binary(Vec<u8>),
    Text,
    Ping,
    Pong,
    Close,
    Failed,
}

/// What a registered client asks for.
#[derive(Debug)]
pub enum ClientStep {
    /// A profile operation: a zero byte, the code of the operation, its payload.
    Profile { opcode: u8, payload: Vec<u8> },
    /// A message to relay.
    Relay { data: Vec<u8> },
    /// Nothing.
    Ignore,
    /// The connection ends.
    Stop,
}

/// Whether a frame is a profile operation. A relay frame cannot be mistaken for one as long as the
/// low byte of its identifier's length is not zero.
pub open spec fn is_profile_frame(d: Seq<u8>) -> bool {
    d.len() >= 2 && d[0] == 0
}

/// A zero byte and a code make any payload a profile operation with that code; a frame without the
/// zero byte in front, or without a code, is none.
pub proof fn zero_byte_marks_profile_frames(opcode: u8, payload: Seq<u8>, other: Seq<u8>)
    ensures
        is_profile_frame(seq![0u8, opcode] + payload),
        (seq![0u8, opcode] + payload)[1] == opcode,
        (seq![0u8, opcode] + payload).skip(2) == payload,
        other.len() < 2 || other[0] != 0 ==> !is_profile_frame(other),
{
    assert((seq![0u8, opcode] + payload).skip(2) =~= payload);
}

/// What the next event on a client's socket asks for.
pub fn client_step(event: ClientEvent) -> (r: ClientStep)
    ensures
        match event {
            ClientEvent::Binary(d) => if is_profile_frame(d@) {
                r matches ClientStep::Profile { opcode, payload } && opcode == d@[1] && payload@ == d@.skip(2)
            } else {
                r matches ClientStep::Relay { data } && data@ == d@
            },
            ClientEvent::Text => r is Ignore,
            ClientEvent::Ping => r is Ignore,
            ClientEvent::Pong => r is Ignore,
            ClientEvent::Close => r is Stop,
            ClientEvent::Failed => r is Stop,
        },
{
    match event {
        ClientEvent::Binary(data) => {
            if data.len() >= 2 && data[0] == 0 {
                let payload = slice_of(&data, 2, data.len());
                assert(payload@ =~= data@.skip(2));
                ClientStep::Profile { opcode: data[1], payload }
            } else {
                ClientStep::Relay { data }
            }
        },
        ClientEvent::Text => ClientStep::Ignore,
        ClientEvent::Ping => ClientStep::Ignore,
        ClientEvent::Pong => ClientStep::Ignore,
        ClientEvent::Close => ClientStep::Stop,
        ClientEvent::Failed => ClientStep::Stop,
    }
}

// ── Relay ───────────────────────────────────────────────────────────

/// A message that a client wants relayed.
#[derive(Debug)]
pub struct RelayRequest {
    pub recipient: Vec<u8>,
    pub payload: Vec<u8>,
}

/// The recipient and the payload of a relay frame: neither may be empty.
pub open spec fn request_of(d: Seq<u8>) -> Option<(Seq<u8>, Seq<u8>)> {
    match dht::message_of(d) {
        Ok((recipient, payload)) => if recipient.len() == 0 {
            None
        } else {
            Some((recipient, payload))
        },
        Err(_) => None,
    }
}

/// A relay frame is understood as what it was made of.
pub proof fn request_reads_back(recipient: Seq<u8>, payload: Seq<u8>)
    requires
        0 < recipient.len() < 65536,
        payload.len() > 0,
    ensures
        request_of(dht::frame(recipient, payload)) == Some((recipient, payload)),
{
    dht::message_reads_back(recipient, payload);
}

/// A frame is a relay request exactly where the first two bytes give the length of an identifier that
/// is not empty, and a payload follows; recipient and payload are then all of it.
pub proof fn request_is_all_of_it(d: Seq<u8>)
    ensures
        request_of(d) is Some <==> d.len() >= 2 && d[0] as int + 256 * (d[1] as int) > 0 && d.len() > 2 + d[0] as int + 256
            * (d[1] as int),
        request_of(d) matches Some((recipient, payload)) ==> {
            &&& recipient.len() == d[0] as int + 256 * (d[1] as int)
            &&& d.take(2) + recipient + payload == d
        },
{
    dht::message_is_all_of_it(d);
}

/// The message of a relay frame, `[u16 LE: length][recipient][payload]`; none where the frame is
/// cut short or a part is empty.
pub fn relay_request(data: &[u8]) -> (r: Option<RelayRequest>)
    ensures
        match r {
            Some(q) => request_of(data@) == Some((q.recipient@, q.payload@)),
            None => request_of(data@) is None,
        },
{
    match decode_mailbox_message(data) {
        Ok((recipient, payload)) => {
            if recipient.len() == 0 {
                return None;
            }
            Some(
                RelayRequest {
                    recipient: vstd::slice::slice_to_vec(recipient),
                    payload: vstd::slice::slice_to_vec(payload),
                },
            )
        },
        Err(_) => None,
    }
}

/// The frame that tells a sender that a recipient is offline: two bytes `0xFF`, and the recipient.
pub open spec fn failure_frame(recipient: Seq<u8>) -> Seq<u8> {
    seq![0xFFu8, 0xFFu8] + recipient
}

/// Tells a sender that a recipient is offline.
pub fn delivery_failure(recipient: &[u8]) -> (r: Vec<u8>)
    ensures
        r@ == failure_frame(recipient@),
{
    let mut r: Vec<u8> = Vec::new();
    r.push(0xFF);
    r.push(0xFF);
    r.extend_from_slice(recipient);
    assert(r@ =~= failure_frame(recipient@));
    r
}

/// A message for a recipient whom no client of this node stands for: what is published, on which
/// topic, what is stored in the mailbox, and what the sender is told.
#[derive(Debug)]
pub struct RemoteMessage {
    pub topic: String,
    pub frame: Vec<u8>,
    pub recipient: Vec<u8>,
    pub sender: Vec<u8>,
    pub payload: Vec<u8>,
    pub failure: Vec<u8>,
}

/// Whether this is how a request goes to other nodes: the forward frame on the recipient's topic,
/// the sender and the payload to the recipient's mailbox, and the failure frame to the sender.
pub open spec fn is_remote(x: RemoteMessage, sender: Seq<u8>, recipient: Seq<u8>, payload: Seq<u8>) -> bool {
    &&& x.topic@ == encoding::hex_text(recipient)
    &&& x.frame@ == dht::frame(sender, payload)
    &&& x.recipient@ == recipient
    &&& x.sender@ == sender
    &&& x.payload@ == payload
    &&& x.failure@ == failure_frame(recipient)
}

/// What goes to other nodes is the whole message: the published frame is taken apart into sender and
/// payload, the mailbox gets both for the recipient, the topic spells the recipient, and the sender
/// is told the recipient behind two bytes `0xFF`.
pub proof fn remote_message_is_whole(x: RemoteMessage, sender: Seq<u8>, recipient: Seq<u8>, payload: Seq<u8>)
    requires
        is_remote(x, sender, recipient, payload),
        sender.len() < 65536,
        payload.len() > 0,
    ensures
        dht::message_of(x.frame@) == Ok::<(Seq<u8>, Seq<u8>), Seq<char>>((sender, payload)),
        x.frame@.len() == 2 + sender.len() + payload.len(),
        x.sender@ == sender,
        x.payload@ == payload,
        x.recipient@ == recipient,
        encoding::is_hex(x.topic@),
        encoding::hex_bytes(x.topic@) == recipient,
        x.topic@.len() == 2 * recipient.len(),
        x.failure@.len() == 2 + recipient.len(),
        x.failure@[0] == 0xFF,
        x.failure@[1] == 0xFF,
        x.failure@.skip(2) == recipient,
{
    dht::message_reads_back(sender, payload);
    encoding::hex_reads_back(recipient);
    assert(x.failure@.skip(2) =~= recipient);
}

/// Two different payloads of one sender are different frames.
pub proof fn frames_tell_payloads_apart(sender: Seq<u8>, a: Seq<u8>, b: Seq<u8>)
    requires
        a != b,
    ensures
        dht::frame(sender, a) != dht::frame(sender, b),
{
    dht::frame_layout(sender, a);
    dht::frame_layout(sender, b);
}

/// Where a request goes.
#[derive(Debug)]
pub enum RelayRoute {
    /// Nowhere: the sender has sent too much.
    Limited,
    /// Nowhere: the recipient has it already.
    Duplicate,
    /// To the recipient's clients on this node: the frame to offer them.
    Offer { frame: Vec<u8> },
    /// To other nodes.
    Remote { message: RemoteMessage },
}

/// What became of an offer.
#[derive(Debug)]
pub enum RelayOutcome {
    /// A client took it; the recipient's delivered set has changed.
    Delivered,
    /// None took it: it goes to other nodes.
    Remote { message: RemoteMessage },
}

fn remote_message(sender_id: &[u8], request: &RelayRequest) -> (r: RemoteMessage)
    ensures
        is_remote(r, sender_id@, request.recipient@, request.payload@),
{
    RemoteMessage {
        topic: hex_encode(&request.recipient),
        frame: encode_mailbox_message(sender_id, &request.payload),
        recipient: vstd::slice::slice_to_vec(&request.recipient),
        sender: vstd::slice::slice_to_vec(sender_id),
        payload: vstd::slice::slice_to_vec(&request.payload),
        failure: delivery_failure(&request.recipient),
    }
}

/// The route of a request, by whether the sender is within the rate limit and whether the recipient
/// has a client on this node. Nothing is marked yet.
pub fn relay_or_p2p(
    delivered: &DeliveredSets,
    sender_id: &[u8],
    request: &RelayRequest,
    allowed: bool,
    connected: bool,
) -> (r: RelayRoute)
    ensures
        if !allowed {
            r is Limited
        } else if !connected {
            r matches RelayRoute::Remote { message } && is_remote(
                message,
                sender_id@,
                request.recipient@,
                request.payload@,
            )
        } else if delivered::was_delivered(
            delivered@,
            request.recipient@,
            dht::frame(sender_id@, request.payload@),
        ) {
            r is Duplicate
        } else {
            r matches RelayRoute::Offer { frame } && frame@ == dht::frame(sender_id@, request.payload@)
        },
{
    if !allowed {
        return RelayRoute::Limited;
    }
    if !connected {
        return RelayRoute::Remote { message: remote_message(sender_id, request) };
    }
    let frame = encode_mailbox_message(sender_id, &request.payload);
    let h = payload_hash(&frame);
    if delivered.contains(&request.recipient, h) {
        RelayRoute::Duplicate
    } else {
        RelayRoute::Offer { frame }
    }
}

/// Settles an offer by whether a client took the frame: only then it is marked as delivered. A
/// recipient who vanished gets it from the mailbox.
pub fn settle_relay(
    delivered: &mut DeliveredSets,
    sender_id: &[u8],
    request: &RelayRequest,
    accepted: bool,
) -> (r: RelayOutcome)
    ensures
        if accepted {
            r is Delivered
        } else {
            r matches RelayOutcome::Remote { message } && is_remote(
                message,
                sender_id@,
                request.recipient@,
                request.payload@,
            )
        },
        final(delivered)@ == if accepted {
            delivered::with_mark(old(delivered)@, request.recipient@, dht::frame(sender_id@, request.payload@))
        } else {
            old(delivered)@
        },
{
    if accepted {
        let frame = encode_mailbox_message(sender_id, &request.payload);
        let h = payload_hash(&frame);
        delivered.mark(&request.recipient, h);
        RelayOutcome::Delivered
    } else {
        RelayOutcome::Remote { message: remote_message(sender_id, request) }
    }
}

/// What a client stores for an offline recipient is the same frame that it would have been handed,
/// so that a message which comes both ways is known as a duplicate.
pub proof fn both_ways_are_one(
    m: Map<Seq<u8>, Seq<u64>>,
    x: RemoteMessage,
    sender: Seq<u8>,
    recipient: Seq<u8>,
    payload: Seq<u8>,
)
    requires
        is_remote(x, sender, recipient, payload),
    ensures
        delivered::was_delivered(
            delivered::with_mark(m, recipient, x.frame@),
            x.recipient@,
            dht::frame(x.sender@, x.payload@),
        ),
{
    delivered::mark_is_remembered(m, recipient, x.frame@);
}

// ── Profile operations ──────────────────────────────────────────────

/// What a profile operation needs next.
#[derive(Debug)]
pub enum ProfileStep {
    /// Nothing: the operation is cut short, and not answered.
    Malformed,
    /// Nothing: there is no such operation.
    Unknown,
    /// This answer.
    Reply { data: Vec<u8> },
    /// A look whether the index is taken; see [`register_checked`].
    Register { index: Vec<u8>, blob: Vec<u8> },
    /// The profile under the index; see [`lookup_reply`].
    Lookup { index: Vec<u8> },
    /// The profile stored under the index; see [`update_reply`].
    Update { index: Vec<u8>, blob: Vec<u8> },
}

/// What registering needs once it is known whether the index is taken.
#[derive(Debug)]
pub enum RegisterStep {
    /// This answer.
    Reply { data: Vec<u8> },
    /// The profile stored under the index; see [`register_reply`].
    Store { index: Vec<u8>, blob: Vec<u8> },
}

/// The search index in front of a payload.
pub open spec fn index_of(payload: Seq<u8>) -> Seq<u8> {
    payload.take(PROFILE_INDEX_LEN as int)
}

/// What follows the search index.
pub open spec fn blob_of(payload: Seq<u8>) -> Seq<u8> {
    payload.skip(PROFILE_INDEX_LEN as int)
}

/// Index and blob together are the payload: 32 bytes, and everything behind them.
pub proof fn profile_is_split_whole(payload: Seq<u8>)
    requires
        payload.len() >= 32,
    ensures
        index_of(payload).len() == 32,
        index_of(payload) + blob_of(payload) == payload,
{
    assert(index_of(payload) + blob_of(payload) =~= payload);
}

/// A payload made of an index of 32 bytes and any blob is split into exactly these two.
pub proof fn profile_reads_back(index: Seq<u8>, blob: Seq<u8>)
    requires
        index.len() == 32,
    ensures
        index_of(index + blob) == index,
        blob_of(index + blob) == blob,
{
    assert(index_of(index + blob) =~= index);
    assert(blob_of(index + blob) =~= blob);
}

fn bytes3(a: u8, b: u8, c: u8) -> (r: Vec<u8>)
    ensures
        r@ == seq![a, b, c],
{
    let mut r: Vec<u8> = Vec::new();
    r.push(a);
    r.push(b);
    r.push(c);
    assert(r@ =~= seq![a, b, c]);
    r
}

fn split_profile(payload: &[u8]) -> (r: (Vec<u8>, Vec<u8>))
    requires
        payload@.len() >= PROFILE_INDEX_LEN,
    ensures
        r.0@ == index_of(payload@),
        r.1@ == blob_of(payload@),
{
    let index = slice_of(payload, 0, PROFILE_INDEX_LEN);
    let blob = slice_of(payload, PROFILE_INDEX_LEN, payload.len());
    assert(index@ =~= index_of(payload@));
    assert(blob@ =~= blob_of(payload@));
    (index, blob)
}

/// What a profile operation needs: `1` registers, `2` looks up, `3` unregisters, which is not
/// supported, `4` updates.
pub fn handle_profile_operation(opcode: u8, payload: &[u8]) -> (r: ProfileStep)
    ensures
        if opcode == 1 {
            if payload@.len() < PROFILE_INDEX_LEN {
                r is Malformed
            } else {
                r matches ProfileStep::Register { index, blob } && index@ == index_of(payload@) && blob@ == blob_of(
                    payload@,
                )
            }
        } else if opcode == 2 {
            if payload@.len() < PROFILE_INDEX_LEN {
                r is Malformed
            } else {
                r matches ProfileStep::Lookup { index } && index@ == index_of(payload@)
            }
        } else if opcode == 3 {
            r matches ProfileStep::Reply { data } && data@ == seq![0xFFu8, 0x02, 0x00]
        } else if opcode == 4 {
            if payload@.len() <= PROFILE_INDEX_LEN {
                r is Malformed
            } else {
                r matches ProfileStep::Update { index, blob } && index@ == index_of(payload@) && blob@ == blob_of(
                    payload@,
                )
            }
        } else {
            r is Unknown
        },
{
    match opcode {
        1 => {
            if payload.len() < PROFILE_INDEX_LEN {
                return ProfileStep::Malformed;
            }
            let (index, blob) = split_profile(payload);
            ProfileStep::Register { index, blob }
        },
        2 => {
            if payload.len() < PROFILE_INDEX_LEN {
                return ProfileStep::Malformed;
            }
            let (index, _blob) = split_profile(payload);
            ProfileStep::Lookup { index }
        },
        3 => ProfileStep::Reply { data: bytes3(0xFF, 0x02, 0x00) },
        4 => {
            if payload.len() <= PROFILE_INDEX_LEN {
                return ProfileStep::Malformed;
            }
            let (index, blob) = split_profile(payload);
            ProfileStep::Update { index, blob }
        },
        _ => ProfileStep::Unknown,
    }
}

/// Registering: a taken index is answered as occupied, and nothing is stored. A free one is stored.
pub fn register_checked(index: Vec<u8>, blob: Vec<u8>, taken: bool) -> (r: RegisterStep)
    ensures
        if taken {
            r matches RegisterStep::Reply { data } && data@ == seq![0xFFu8, 0x00, 0x01]
        } else {
            r matches RegisterStep::Store { index: i, blob: b } && i@ == index@ && b@ == blob@
        },
{
    if taken {
        RegisterStep::Reply { data: bytes3(0xFF, 0x00, 0x01) }
    } else {
        RegisterStep::Store { index, blob }
    }
}

/// The answer to registering once the store was asked for; none where that failed.
pub fn register_reply(stored: bool) -> (r: Option<Vec<u8>>)
    ensures
        if stored {
            r matches Some(d) && d@ == seq![0xFEu8, 0x00, 0x00]
        } else {
            r is None
        },
{
    if stored {
        Some(bytes3(0xFE, 0x00, 0x00))
    } else {
        None
    }
}

/// The answer to updating once the store was asked for; none where that failed.
pub fn update_reply(stored: bool) -> (r: Option<Vec<u8>>)
    ensures
        if stored {
            r matches Some(d) && d@ == seq![0xFEu8, 0x03, 0x00]
        } else {
            r is None
        },
{
    if stored {
        Some(bytes3(0xFE, 0x03, 0x00))
    } else {
        None
    }
}

/// The answer to a lookup: the profile behind its length in 16 bits, or that there is none.
pub fn lookup_reply(found: &Option<Vec<u8>>) -> (r: Vec<u8>)
    ensures
        r@ == match *found {
            Some(d) => seq![0xFEu8, 0x01] + dht::frame(d@, Seq::empty()),
            None => seq![0xFFu8, 0x01, 0x00],
        },
{
    match found {
        Some(data) => {
            let mut resp: Vec<u8> = Vec::new();
            resp.push(0xFE);
            resp.push(0x01);
            push_le16(&mut resp, data.len());
            resp.extend_from_slice(data);
            assert(resp@ =~= seq![0xFEu8, 0x01] + dht::frame(data@, Seq::empty()));
            resp
        },
        None => bytes3(0xFF, 0x01, 0x00),
    }
}

// ── Health ──────────────────────────────────────────────────────────

/// The status code and the body of the answer to a health request: the gateway is well while the
/// peer network is connected.
pub fn health_reply(p2p_connected: bool) -> (r: (u16, &'static str))
    ensures
        r.0 == if p2p_connected {
            200u16
        } else {
            503u16
        },
        r.1@ == if p2p_connected {
            "OK\n"@
        } else {
            "P2P not connected\n"@
        },
{
    if p2p_connected {
        (200, "OK\n")
    } else {
        (503, "P2P not connected\n")
    }
}

// ── Log lines ───────────────────────────────────────────────────────

/// Bytes in a log line: the first `max` in hexadecimal, an ellipsis where there are more, and how
/// many there are.
pub open spec fn log_form(d: Seq<u8>, max: nat) -> Seq<char> {
    let shown = if d.len() > max {
        encoding::hex_text(d.take(max as int)).push('\u{2026}')
    } else {
        encoding::hex_text(d)
    };
    (shown.push('(') + text::decimal(d.len())).push('b').push(')')
}

/// A log line shows the first bytes in hexadecimal, as many as it may, an ellipsis where some are left
/// out, and the number of all.
pub proof fn log_line_shows_the_first_bytes(d: Seq<u8>, max: nat)
    ensures
        d.len() <= max ==> log_form(d, max) == encoding::hex_text(d) + seq!['('] + text::decimal(d.len()) + seq!['b', ')'],
        d.len() > max ==> log_form(d, max) == encoding::hex_text(d.take(max as int)) + seq!['\u{2026}', '(']
            + text::decimal(d.len()) + seq!['b', ')'],
{
    if d.len() <= max {
        assert(log_form(d, max) =~= encoding::hex_text(d) + seq!['('] + text::decimal(d.len()) + seq!['b', ')']);
    } else {
        assert(log_form(d, max) =~= encoding::hex_text(d.take(max as int)) + seq!['\u{2026}', '('] + text::decimal(d.len())
            + seq!['b', ')']);
    }
}

/// Bytes in a log line.
pub fn hex_fmt(bytes: &[u8], max: usize) -> (r: String)
    ensures
        r@ == log_form(bytes@, max as nat),
{
    let n = bytes.len();
    let mut s = if n > max {
        let head = slice_of(bytes, 0, max);
        assert(head@ =~= bytes@.take(max as int));
        let mut s = hex_encode(&head);
        s.push('\u{2026}');
        s
    } else {
        hex_encode(bytes)
    };
    s.push('(');
    push_decimal(&mut s, n as u64);
    s.push('b');
    s.push(')');
    s
}

} // verus!
