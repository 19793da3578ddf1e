//! # DHT operations
//!
//! Keys and records of the mailboxes in the distributed hash table. A mailbox record is stored on
//! the nodes that are closest to its key, and expires after a day.

use crate::bytes;
use crate::bytes::{push_le16, read_le16};
use vstd::prelude::*;

verus! {

/// Number of closest nodes that a mailbox record is replicated on.
pub const REPLICATION_FACTOR: usize = 3;

/// Seconds after which a mailbox record expires.
pub const MAILBOX_TTL_SECS: u64 = 86_400;

/// Prefix of mailbox keys, apart from other data in the table.
pub open spec fn key_prefix() -> Seq<u8> {
    seq![0x76, 0x6d, 0x62, 0x5f]
}

/// The table key of a user's mailbox: `vmb_`, then the user's hash.
pub fn mailbox_key(user_hash: &[u8]) -> (r: Vec<u8>)
    ensures
        r@ == key_prefix() + user_hash@,
{
    let mut key: Vec<u8> = Vec::new();
    key.push(0x76);
    key.push(0x6d);
    key.push(0x62);
    key.push(0x5f);
    key.extend_from_slice(user_hash);
    assert(key@ =~= key_prefix() + user_hash@);
    key
}

/// Different users have different mailbox keys.
pub proof fn mailbox_keys_differ(a: Seq<u8>, b: Seq<u8>)
    requires
        key_prefix() + a == key_prefix() + b,
    ensures
        a == b,
{
    assert(a =~= (key_prefix() + a).skip(4));
    assert(b =~= (key_prefix() + b).skip(4));
}

/// A frame: an identifier behind its length in 16 bits, then a payload.
pub open spec fn frame(id: Seq<u8>, payload: Seq<u8>) -> Seq<u8> {
    bytes::le16(id.len() as int) + id + payload
}

/// A frame holds the length of the identifier in two bytes, the low one first, then the identifier
/// and the payload, and nothing else.
pub proof fn frame_layout(id: Seq<u8>, payload: Seq<u8>)
    ensures
        frame(id, payload).len() == 2 + id.len() + payload.len(),
        frame(id, payload)[0] as int + 256 * (frame(id, payload)[1] as int) == id.len() % 65536,
        frame(id, payload).subrange(2, 2 + id.len() as int) == id,
        frame(id, payload).skip(2 + id.len() as int) == payload,
{
    bytes::le16_is_little_endian(id.len() as int);
    let d = frame(id, payload);
    assert(d.subrange(2, 2 + id.len() as int) =~= id);
    assert(d.skip(2 + id.len() as int) =~= payload);
}

/// Every mailbox key starts with the bytes of `vmb_`.
pub proof fn mailbox_keys_are_marked(user: Seq<u8>)
    ensures
        (key_prefix() + user).len() == 4 + user.len(),
        (key_prefix() + user)[0] == 'v' as u8,
        (key_prefix() + user)[1] == 'm' as u8,
        (key_prefix() + user)[2] == 'b' as u8,
        (key_prefix() + user)[3] == '_' as u8,
{
}

/// The identifier and the payload of a mailbox message, or why there are none.
pub open spec fn message_of(d: Seq<u8>) -> Result<(Seq<u8>, Seq<u8>), Seq<char>> {
    if d.len() < 2 {
        Err("Mailbox message too short: missing sender_id_len"@)
    } else {
        let end = 2 + bytes::le16_at(d, 0);
        if d.len() < end {
            Err("Mailbox message truncated: missing sender_id"@)
        } else if d.len() == end {
            Err("Mailbox message has empty payload"@)
        } else {
            Ok((d.subrange(2, end), d.subrange(end, d.len() as int)))
        }
    }
}

/// A mailbox message is taken apart into what it was made of.
pub proof fn message_reads_back(sender: Seq<u8>, payload: Seq<u8>)
    requires
        sender.len() < 65536,
        payload.len() > 0,
    ensures
        message_of(frame(sender, payload)) == Ok::<(Seq<u8>, Seq<u8>), Seq<char>>((sender, payload)),
{
    let d = frame(sender, payload);
    let end = 2 + sender.len() as int;
    assert(d.subrange(0, 2) =~= bytes::le16(sender.len() as int));
    bytes::le16_reads_back(d, 0, sender.len() as int);
    assert(d.subrange(2, end) =~= sender);
    assert(d.subrange(end, d.len() as int) =~= payload);
}

/// Bytes are a mailbox message exactly where more of them follow the identifier whose length the
/// first two give; the message is then all of them.
pub proof fn message_is_all_of_it(d: Seq<u8>)
    ensures
        message_of(d) is Ok <==> d.len() >= 2 && d.len() > 2 + d[0] as int + 256 * (d[1] as int),
        message_of(d) matches Ok((sender, payload)) ==> {
            &&& sender.len() == d[0] as int + 256 * (d[1] as int)
            &&& d.take(2) + sender + payload == d
        },
        d.len() < 2 ==> message_of(d) == Err::<(Seq<u8>, Seq<u8>), Seq<char>>(
            "Mailbox message too short: missing sender_id_len"@,
        ),
        2 <= d.len() < 2 + d[0] as int + 256 * (d[1] as int) ==> message_of(d) == Err::<
            (Seq<u8>, Seq<u8>),
            Seq<char>,
        >("Mailbox message truncated: missing sender_id"@),
        d.len() >= 2 && d.len() == 2 + d[0] as int + 256 * (d[1] as int) ==> message_of(d) == Err::<
            (Seq<u8>, Seq<u8>),
            Seq<char>,
        >("Mailbox message has empty payload"@),
{
    if let Ok((sender, payload)) = message_of(d) {
        assert(d.take(2) + sender + payload =~= d);
    }
}

/// Encodes a mailbox message: `[2 bytes: sender_id_len (u16 LE)][sender_id][encrypted payload]`.
pub fn encode_mailbox_message(sender_hash: &[u8], encrypted_payload: &[u8]) -> (r: Vec<u8>)
    ensures
        r@ == frame(sender_hash@, encrypted_payload@),
{
    let mut data: Vec<u8> = Vec::new();
    push_le16(&mut data, sender_hash.len());
    data.extend_from_slice(sender_hash);
    data.extend_from_slice(encrypted_payload);
    assert(data@ =~= frame(sender_hash@, encrypted_payload@));
    data
}

/// Decodes a mailbox message into `(sender_hash, encrypted_payload)`.
pub fn decode_mailbox_message(data: &[u8]) -> (r: Result<(&[u8], &[u8]), &'static str>)
    ensures
        match r {
            Ok(p) => message_of(data@) == Ok::<(Seq<u8>, Seq<u8>), Seq<char>>((p.0@, p.1@)),
            Err(e) => message_of(data@) == Err::<(Seq<u8>, Seq<u8>), Seq<char>>(e@),
        },
{
    if data.len() < 2 {
        return Err("Mailbox message too short: missing sender_id_len");
    }
    let end: usize = 2 + read_le16(data, 0);
    if data.len() < end {
        return Err("Mailbox message truncated: missing sender_id");
    }
    if data.len() == end {
        return Err("Mailbox message has empty payload");
    }
    Ok((vstd::slice::slice_subrange(data, 2, end), vstd::slice::slice_subrange(data, end, data.len())))
}

} // verus!
