//! # Peer network events
//!
//! What the gateway does with what the peer network reports. A message on a topic is for the one
//! recipient whose identifier the topic spells; one without a topic is for everybody.

use crate::encoding;
use crate::encoding::hex_decode;
use vstd::prelude::*;

verus! {

/// What the peer network reports.
#[derive(Debug)]
pub enum PeerEvent {
    /// A message, on a topic or, with an empty one, direct.
    MessageReceived { topic: String, data: Vec<u8> },
    /// The records of a user's mailbox.
    MailboxRetrieved { user_hash: Vec<u8>, messages: Vec<Vec<u8>> },
    /// A peer was discovered.
    PeerDiscovered,
    /// The node listens on an address.
    ListeningOn,
}

/// What the gateway does about it.
#[derive(Debug)]
pub enum PeerAction {
    /// Every client gets the message.
    Broadcast { data: Vec<u8> },
    /// The clients of one recipient get the message, if it is new to the recipient.
    Deliver { recipient: Vec<u8>, data: Vec<u8> },
    /// The records are unpacked, for the clients of this user only.
    Unpack { user_hash: Vec<u8>, messages: Vec<Vec<u8>> },
    /// The routing table is filled.
    Bootstrap,
    /// Nothing.
    Ignore,
}

/// What the gateway does about a report, and whether it counts the peer network as connected.
pub fn handle_p2p_event(event: PeerEvent, p2p_connected: &mut bool) -> (r: PeerAction)
    ensures
        match event {
            PeerEvent::MessageReceived { topic, data } => if topic@.len() == 0 {
                r matches PeerAction::Broadcast { data: d } && d@ == data@
            } else if encoding::is_hex(topic@) {
                r matches PeerAction::Deliver { recipient, data: d } && recipient@ == encoding::hex_bytes(topic@) && d@
                    == data@
            } else {
                r is Ignore
            },
            PeerEvent::MailboxRetrieved { user_hash, messages } => if messages@.len() == 0 {
                r is Ignore
            } else {
                r matches PeerAction::Unpack { user_hash: u, messages: m } && u@ == user_hash@ && m@ == messages@
            },
            PeerEvent::PeerDiscovered => r is Bootstrap,
            PeerEvent::ListeningOn => r is Bootstrap,
        },
        *final(p2p_connected) == (*old(p2p_connected) || event is PeerDiscovered || event is ListeningOn),
{
    match event {
        PeerEvent::MessageReceived { topic, data } => {
            if topic.as_str().unicode_len() == 0 {
                return PeerAction::Broadcast { data };
            }
            match hex_decode(&topic) {
                Some(recipient) => PeerAction::Deliver { recipient, data },
                None => PeerAction::Ignore,
            }
        },
        PeerEvent::MailboxRetrieved { user_hash, messages } => {
            if messages.len() == 0 {
                PeerAction::Ignore
            } else {
                PeerAction::Unpack { user_hash, messages }
            }
        },
        PeerEvent::PeerDiscovered => {
            *p2p_connected = true;
            PeerAction::Bootstrap
        },
        PeerEvent::ListeningOn => {
            *p2p_connected = true;
            PeerAction::Bootstrap
        },
    }
}

/// A message that is published on a client's topic is for that client: the topic is not empty, and
/// spells the client's identifier.
pub proof fn topic_reaches_its_client(session_id: Seq<u8>)
    requires
        session_id.len() > 0,
    ensures
        encoding::hex_text(session_id).len() > 0,
        encoding::is_hex(encoding::hex_text(session_id)),
        encoding::hex_bytes(encoding::hex_text(session_id)) == session_id,
{
    encoding::hex_reads_back(session_id);
}

} // verus!
