//! Mailbox keys and records.

use vurnchat::dht::{decode_mailbox_message, encode_mailbox_message, mailbox_key};

#[test]
fn test_mailbox_key_derivation() {
    let user_hash = b"0123456789abcdef0123456789abcdef"; // 32 bytes
    let key = mailbox_key(user_hash);
    let key_bytes = key.to_vec();
    assert_eq!(key_bytes.len(), 4 + 32);
    assert_eq!(&key_bytes[..4], b"vmb_");
    assert_eq!(&key_bytes[4..], user_hash);
}

#[test]
fn test_mailbox_message_roundtrip() {
    let sender = b"alice_hash_32_bytes_!!";
    let payload = b"encrypted_data_here";
    let encoded = encode_mailbox_message(sender, payload);
    let (decoded_sender, decoded_payload) = decode_mailbox_message(&encoded).unwrap();
    assert_eq!(decoded_sender, sender);
    assert_eq!(decoded_payload, payload);
}

#[test]
fn test_mailbox_message_too_short() {
    assert!(decode_mailbox_message(b"").is_err());
    assert!(decode_mailbox_message(b"\x01\x00").is_err());
}
