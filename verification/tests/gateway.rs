//! The gateway: registration, relay, profiles, mailboxes and duplicates.

use std::collections::hash_map::DefaultHasher;
use std::hash::{Hash, Hasher};
use vurnchat::cli::{CliArgs, CliStop, ServerMode};
use vurnchat::delivered::{
    check_and_mark_delivered, decode_hashes, encode_hashes, hashes_to_persist, payload_hash, DeliveredSets,
    MAX_DELIVERED_HASHES, MAX_PERSISTED_HASHES,
};
use vurnchat::dht::{decode_mailbox_message, encode_mailbox_message, mailbox_key, MAILBOX_TTL_SECS, REPLICATION_FACTOR};
use vurnchat::events::{handle_p2p_event, PeerAction, PeerEvent};
use vurnchat::gateway::{
    client_step, delivery_failure, handle_profile_operation, health_reply, hex_fmt, lookup_reply, register_checked, register_client,
    register_reply, relay_or_p2p, relay_request, settle_relay, update_reply, ClientEvent, ClientStep, FirstMessage,
    ProfileStep, RegisterStep, Registration, RelayOutcome, RelayRequest, RelayRoute, RemoteMessage,
};
use vurnchat::mailbox::{
    deliverable, handle_retrieval_result, read_sled_backup, Drain, EnvelopeCheck, MailboxRecord, StoredRecord,
};

// ── Mailbox records ─────────────────────────────────────────────────

#[test]
fn mailbox_message_layout_and_faults() {
    assert_eq!(encode_mailbox_message(&[7, 8], &[9]), vec![2, 0, 7, 8, 9]);
    assert_eq!(decode_mailbox_message(&[2, 0, 7, 8, 9]), Ok((&[7u8, 8][..], &[9u8][..])));
    assert_eq!(decode_mailbox_message(&[2]), Err("Mailbox message too short: missing sender_id_len"));
    assert_eq!(decode_mailbox_message(&[2, 0, 7]), Err("Mailbox message truncated: missing sender_id"));
    assert_eq!(decode_mailbox_message(&[1, 0, 7]), Err("Mailbox message has empty payload"));
    assert_eq!(decode_mailbox_message(&[0, 0, 7]), Ok((&[][..], &[7u8][..])));
}

#[test]
fn mailbox_keys_tell_users_apart() {
    assert_ne!(mailbox_key(b"alice"), mailbox_key(b"bob"));
    assert_eq!(mailbox_key(&[]), b"vmb_".to_vec());
    assert_eq!((REPLICATION_FACTOR, MAILBOX_TTL_SECS), (3, 24 * 3600));
}

// ── Delivered sets ──────────────────────────────────────────────────

#[test]
fn payload_hash_is_the_default_hash_of_the_bytes() {
    for data in [&b""[..], &b"a"[..], &[0u8; 300][..]] {
        let mut h = DefaultHasher::new();
        data.hash(&mut h);
        assert_eq!(payload_hash(data), h.finish());
    }
    assert_ne!(payload_hash(b"a"), payload_hash(b"b"));
}

#[test]
fn payload_is_new_once_per_user() {
    let mut sets = DeliveredSets::new();
    assert!(check_and_mark_delivered(&mut sets, b"alice", b"m"));
    assert!(!check_and_mark_delivered(&mut sets, b"alice", b"m"));
    assert!(check_and_mark_delivered(&mut sets, b"bob", b"m"));
    assert!(check_and_mark_delivered(&mut sets, b"alice", b"n"));
    assert_eq!(sets.get(b"alice"), Some(vec![payload_hash(b"m"), payload_hash(b"n")]));
    assert_eq!(sets.get(b"carol"), None);
    sets.remove(b"alice");
    assert_eq!(sets.get(b"alice"), None);
    assert_eq!(sets.get(b"bob"), Some(vec![payload_hash(b"m")]));
    sets.remove(b"alice");
    assert!(check_and_mark_delivered(&mut sets, b"alice", b"m"));
}

#[test]
fn full_set_forgets_its_oldest_half() {
    let mut sets = DeliveredSets::new();
    let seed: Vec<u64> = (0..MAX_DELIVERED_HASHES as u64).rev().collect();
    sets.seed(b"u", &seed);
    assert_eq!(sets.get(b"u").unwrap().len(), MAX_DELIVERED_HASHES);
    sets.mark(b"u", seed[0]);
    assert_eq!(sets.get(b"u"), Some(seed.clone()));
    sets.mark(b"u", 1_000_000);
    let kept = sets.get(b"u").unwrap();
    assert_eq!(kept.len(), MAX_DELIVERED_HASHES / 2 + 1);
    assert_eq!(&kept[..MAX_DELIVERED_HASHES / 2], &seed[MAX_DELIVERED_HASHES / 2..]);
    assert_eq!(kept[MAX_DELIVERED_HASHES / 2], 1_000_000);
    assert!(!sets.contains(b"u", seed[0]));
    assert!(sets.contains(b"u", 0));
}

#[test]
fn seeding_keeps_each_hash_once() {
    let mut sets = DeliveredSets::new();
    sets.mark(b"u", 77);
    sets.seed(b"u", &vec![3, 1, 3, 2, 1]);
    assert_eq!(sets.get(b"u"), Some(vec![3, 1, 2]));
    assert!(!sets.contains(b"u", 77));
}

#[test]
fn hashes_survive_storage() {
    assert_eq!(
        encode_hashes(&vec![1, 0x0102]),
        vec![2, 0, 0, 0, 0, 0, 0, 0, 1, 0, 0, 0, 0, 0, 0, 0, 2, 1, 0, 0, 0, 0, 0, 0]
    );
    let hashes: Vec<u64> = vec![u64::MAX, 0, 42];
    let bytes = encode_hashes(&hashes);
    assert_eq!(decode_hashes(&Some(bytes.clone())), hashes);
    let mut longer = bytes.clone();
    longer.push(9);
    assert_eq!(decode_hashes(&Some(longer)), hashes);
    assert_eq!(decode_hashes(&Some(bytes[..bytes.len() - 1].to_vec())), Vec::<u64>::new());
    assert_eq!(decode_hashes(&Some(vec![1, 2, 3])), Vec::<u64>::new());
    assert_eq!(decode_hashes(&Some(vec![0xff; 8])), Vec::<u64>::new());
    assert_eq!(decode_hashes(&None), Vec::<u64>::new());
}

#[test]
fn returning_user_is_remembered() {
    let mut sets = DeliveredSets::default();
    assert!(check_and_mark_delivered(&mut sets, b"u", b"m"));
    assert!(check_and_mark_delivered(&mut sets, b"v", b"m"));
    assert_eq!(sets.stored_form(b"w"), None);
    let stored = sets.stored_form(b"u");
    let released = sets.release(b"u");
    assert_eq!(stored, released);
    assert_eq!(released, Some(encode_hashes(&vec![payload_hash(b"m")])));
    assert_eq!(sets.get(b"u"), None);
    assert_eq!(sets.release(b"u"), None);
    sets.restore(b"u", &released);
    assert!(!check_and_mark_delivered(&mut sets, b"u", b"m"));
    sets.restore(b"u", &Some(vec![1]));
    assert_eq!(sets.get(b"u"), Some(vec![]));
    sets.restore(b"u", &None);
    assert!(check_and_mark_delivered(&mut sets, b"u", b"m"));
    assert!(!check_and_mark_delivered(&mut sets, b"v", b"m"));
}

#[test]
fn storage_takes_the_newest_hashes() {
    let many: Vec<u64> = (0..MAX_PERSISTED_HASHES as u64 + 5).collect();
    let kept = hashes_to_persist(&many);
    assert_eq!(kept, &many[5..]);
    assert_eq!(decode_hashes(&Some(encode_hashes(&many))), kept);
    assert_eq!(hashes_to_persist(&vec![2, 1]), vec![2, 1]);
}

// ── Registration and frames ─────────────────────────────────────────

#[test]
fn clients_register_with_their_identifier() {
    match register_client(FirstMessage::Binary(vec![0xab, 0x01])) {
        Registration::Accepted { session_id, topic } => {
            assert_eq!(session_id, vec![0xab, 0x01]);
            assert_eq!(topic, "ab01");
        }
        other => panic!("{:?}", other),
    }
    assert!(matches!(register_client(FirstMessage::Binary(vec![])), Registration::EmptyId));
    assert!(matches!(register_client(FirstMessage::NotBinary), Registration::NotBinary));
    assert!(matches!(register_client(FirstMessage::Failed), Registration::Failed));
    assert!(matches!(register_client(FirstMessage::Gone), Registration::Gone));
}

#[test]
fn frames_are_told_apart() {
    match client_step(ClientEvent::Binary(vec![0, 2, 7, 8])) {
        ClientStep::Profile { opcode, payload } => assert_eq!((opcode, payload), (2, vec![7, 8])),
        other => panic!("{:?}", other),
    }
    match client_step(ClientEvent::Binary(vec![1, 0, 7, 8])) {
        ClientStep::Relay { data } => assert_eq!(data, vec![1, 0, 7, 8]),
        other => panic!("{:?}", other),
    }
    assert!(matches!(client_step(ClientEvent::Binary(vec![0])), ClientStep::Relay { .. }));
    assert!(matches!(client_step(ClientEvent::Text), ClientStep::Ignore));
    assert!(matches!(client_step(ClientEvent::Ping), ClientStep::Ignore));
    assert!(matches!(client_step(ClientEvent::Pong), ClientStep::Ignore));
    assert!(matches!(client_step(ClientEvent::Close), ClientStep::Stop));
    assert!(matches!(client_step(ClientEvent::Failed), ClientStep::Stop));
}

// ── Relay ───────────────────────────────────────────────────────────

fn request() -> RelayRequest {
    relay_request(&[2, 0, 0xbb, 0x0b, 5, 6]).unwrap()
}

fn assert_remote(message: RemoteMessage) {
    assert_eq!(message.topic, "bb0b");
    assert_eq!(message.frame, vec![1, 0, 0xaa, 5, 6]);
    assert_eq!(message.recipient, vec![0xbb, 0x0b]);
    assert_eq!(message.sender, vec![0xaa]);
    assert_eq!(message.payload, vec![5, 6]);
    assert_eq!(message.failure, vec![0xff, 0xff, 0xbb, 0x0b]);
}

#[test]
fn sender_is_told_who_is_offline() {
    assert_eq!(delivery_failure(&[0xbb, 0x0b]), vec![0xff, 0xff, 0xbb, 0x0b]);
    assert_eq!(delivery_failure(&[]), vec![0xff, 0xff]);
}

#[test]
fn relay_frames_need_recipient_and_payload() {
    let q = request();
    assert_eq!((q.recipient, q.payload), (vec![0xbb, 0x0b], vec![5, 6]));
    for bad in [&[][..], &[1][..], &[0, 0, 7][..], &[2, 0, 7][..], &[1, 0, 7][..]] {
        assert!(relay_request(bad).is_none());
    }
}

#[test]
fn connected_recipient_is_offered_the_frame_once() {
    let mut sets = DeliveredSets::new();
    let q = request();
    assert!(matches!(relay_or_p2p(&sets, &[0xaa], &q, false, true), RelayRoute::Limited));
    match relay_or_p2p(&sets, &[0xaa], &q, true, true) {
        RelayRoute::Offer { frame } => assert_eq!(frame, vec![1, 0, 0xaa, 5, 6]),
        other => panic!("{:?}", other),
    }
    assert!(matches!(settle_relay(&mut sets, &[0xaa], &q, true), RelayOutcome::Delivered));
    assert!(matches!(relay_or_p2p(&sets, &[0xaa], &q, true, true), RelayRoute::Duplicate));
    assert!(matches!(relay_or_p2p(&sets, &[0xac], &q, true, true), RelayRoute::Offer { .. }));
}

#[test]
fn absent_recipient_is_reached_through_other_nodes() {
    let sets = DeliveredSets::new();
    match relay_or_p2p(&sets, &[0xaa], &request(), true, false) {
        RelayRoute::Remote { message } => assert_remote(message),
        other => panic!("{:?}", other),
    }
}

#[test]
fn refused_offer_is_not_marked_and_goes_on() {
    let mut sets = DeliveredSets::new();
    let q = request();
    match settle_relay(&mut sets, &[0xaa], &q, false) {
        RelayOutcome::Remote { message } => assert_remote(message),
        other => panic!("{:?}", other),
    }
    assert!(sets.get(&[0xbb, 0x0b]).is_none());
    assert!(matches!(relay_or_p2p(&sets, &[0xaa], &q, true, true), RelayRoute::Offer { .. }));
}

#[test]
fn message_that_comes_both_ways_is_a_duplicate() {
    let mut sets = DeliveredSets::new();
    let q = request();
    settle_relay(&mut sets, &[0xaa], &q, true);
    let stored = encode_mailbox_message(&[0xaa], &[5, 6]);
    assert!(!deliverable(&sets, &[0xbb, 0x0b], &stored));
    assert!(deliverable(&sets, &[0xbb], &stored));
}

// ── Profiles ────────────────────────────────────────────────────────

#[test]
fn profile_operations_are_told_apart() {
    let mut payload = vec![3u8; 32];
    assert!(matches!(handle_profile_operation(1, &payload[1..]), ProfileStep::Malformed));
    assert!(matches!(handle_profile_operation(2, &payload[1..]), ProfileStep::Malformed));
    assert!(matches!(handle_profile_operation(4, &payload), ProfileStep::Malformed));
    assert!(matches!(handle_profile_operation(0, &payload), ProfileStep::Unknown));
    assert!(matches!(handle_profile_operation(5, &payload), ProfileStep::Unknown));
    match handle_profile_operation(3, &[]) {
        ProfileStep::Reply { data } => assert_eq!(data, vec![0xFF, 0x02, 0x00]),
        other => panic!("{:?}", other),
    }
    match handle_profile_operation(1, &payload) {
        ProfileStep::Register { index, blob } => assert_eq!((index, blob), (vec![3; 32], vec![])),
        other => panic!("{:?}", other),
    }
    payload.push(9);
    match handle_profile_operation(2, &payload) {
        ProfileStep::Lookup { index } => assert_eq!(index, vec![3; 32]),
        other => panic!("{:?}", other),
    }
    match handle_profile_operation(4, &payload) {
        ProfileStep::Update { index, blob } => assert_eq!((index, blob), (vec![3; 32], vec![9])),
        other => panic!("{:?}", other),
    }
}

#[test]
fn profile_answers() {
    match register_checked(vec![1], vec![2], true) {
        RegisterStep::Reply { data } => assert_eq!(data, vec![0xFF, 0x00, 0x01]),
        other => panic!("{:?}", other),
    }
    match register_checked(vec![1], vec![2], false) {
        RegisterStep::Store { index, blob } => assert_eq!((index, blob), (vec![1], vec![2])),
        other => panic!("{:?}", other),
    }
    assert_eq!(register_reply(true), Some(vec![0xFE, 0x00, 0x00]));
    assert_eq!(register_reply(false), None);
    assert_eq!(update_reply(true), Some(vec![0xFE, 0x03, 0x00]));
    assert_eq!(update_reply(false), None);
    assert_eq!(lookup_reply(&None), vec![0xFF, 0x01, 0x00]);
    assert_eq!(lookup_reply(&Some(vec![7, 8])), vec![0xFE, 0x01, 2, 0, 7, 8]);
    assert_eq!(&lookup_reply(&Some(vec![1; 65537]))[..5], &[0xFE, 0x01, 1, 0, 1]);
}

#[test]
fn health_follows_the_peer_network() {
    assert_eq!(health_reply(true), (200, "OK\n"));
    assert_eq!(health_reply(false), (503, "P2P not connected\n"));
}

#[test]
fn log_form_of_bytes() {
    assert_eq!(hex_fmt(&[0xab, 0x01, 0xff], 2), "ab01\u{2026}(3b)");
    assert_eq!(hex_fmt(&[0xab, 0x01], 2), "ab01(2b)");
    assert_eq!(hex_fmt(&[], 8), "(0b)");
    assert_eq!(hex_fmt(&[1; 1234], 0), "\u{2026}(1234b)");
}

// ── Peer network events ─────────────────────────────────────────────

#[test]
fn peer_messages_find_their_clients() {
    let mut connected = false;
    let message = |topic: &str| PeerEvent::MessageReceived { topic: topic.to_string(), data: vec![1, 2] };
    match handle_p2p_event(message(""), &mut connected) {
        PeerAction::Broadcast { data } => assert_eq!(data, vec![1, 2]),
        other => panic!("{:?}", other),
    }
    match handle_p2p_event(message("bb0B"), &mut connected) {
        PeerAction::Deliver { recipient, data } => assert_eq!((recipient, data), (vec![0xbb, 0x0b], vec![1, 2])),
        other => panic!("{:?}", other),
    }
    assert!(matches!(handle_p2p_event(message("bb0"), &mut connected), PeerAction::Ignore));
    assert!(matches!(handle_p2p_event(message("group"), &mut connected), PeerAction::Ignore));
    assert!(!connected);
}

#[test]
fn topic_spells_the_registered_client() {
    let topic = match register_client(FirstMessage::Binary(vec![0, 17, 255])) {
        Registration::Accepted { topic, .. } => topic,
        other => panic!("{:?}", other),
    };
    let mut connected = true;
    match handle_p2p_event(PeerEvent::MessageReceived { topic, data: vec![] }, &mut connected) {
        PeerAction::Deliver { recipient, .. } => assert_eq!(recipient, vec![0, 17, 255]),
        other => panic!("{:?}", other),
    }
    assert!(connected);
}

#[test]
fn peers_connect_the_gateway() {
    for event in [PeerEvent::PeerDiscovered, PeerEvent::ListeningOn] {
        let mut connected = false;
        assert!(matches!(handle_p2p_event(event, &mut connected), PeerAction::Bootstrap));
        assert!(connected);
    }
    let mut connected = false;
    let none = PeerEvent::MailboxRetrieved { user_hash: vec![1], messages: vec![] };
    assert!(matches!(handle_p2p_event(none, &mut connected), PeerAction::Ignore));
    let some = PeerEvent::MailboxRetrieved { user_hash: vec![1], messages: vec![vec![2]] };
    match handle_p2p_event(some, &mut connected) {
        PeerAction::Unpack { user_hash, messages } => assert_eq!((user_hash, messages), (vec![1], vec![vec![2]])),
        other => panic!("{:?}", other),
    }
    assert!(!connected);
}

// ── Offline messages ────────────────────────────────────────────────

fn stored(key: u8, value: &[u8], check: EnvelopeCheck) -> StoredRecord {
    StoredRecord { key: vec![key], value: value.to_vec(), check }
}

#[test]
fn envelopes_are_opened_or_left_out() {
    let found = vec![
        stored(1, b"raw", EnvelopeCheck::Legacy),
        stored(2, b"sealed", EnvelopeCheck::Valid(b"inner".to_vec())),
        stored(3, b"broken", EnvelopeCheck::Invalid),
    ];
    let (records, corrupt) = read_sled_backup(&found);
    let pairs: Vec<(Vec<u8>, Vec<u8>)> = records.into_iter().map(|r| (r.key, r.payload)).collect();
    assert_eq!(pairs, vec![(vec![1], b"raw".to_vec()), (vec![2], b"inner".to_vec())]);
    assert_eq!(corrupt, vec![vec![3]]);
    assert_eq!(handle_retrieval_result(&found), vec![b"raw".to_vec(), b"inner".to_vec()]);
    assert!(handle_retrieval_result(&vec![]).is_empty());
}

fn records(payloads: &[&[u8]]) -> Vec<MailboxRecord> {
    payloads
        .iter()
        .enumerate()
        .map(|(i, p)| MailboxRecord { key: vec![i as u8], payload: p.to_vec() })
        .collect()
}

#[test]
fn drain_removes_only_what_was_taken_or_known() {
    let mut sets = DeliveredSets::new();
    sets.mark(b"u", payload_hash(b"old"));
    let mut drain = Drain::start(b"u", records(&[b"old", b"a", b"b", b"a", b"c"]));
    // "old" is passed over, "a" is taken.
    assert_eq!(drain.next_offer(&sets), Some(b"a".to_vec()));
    drain.settle(&mut sets, true);
    // "b" is refused.
    assert_eq!(drain.next_offer(&sets), Some(b"b".to_vec()));
    drain.settle(&mut sets, false);
    // The second "a" is passed over, "c" is taken.
    assert_eq!(drain.next_offer(&sets), Some(b"c".to_vec()));
    drain.settle(&mut sets, true);
    assert_eq!(drain.next_offer(&sets), None);
    drain.settle(&mut sets, true);
    assert_eq!(drain.fresh_count(), 2);
    assert_eq!(drain.removable(), vec![vec![0], vec![1], vec![3], vec![4]]);
    assert!(sets.contains(b"u", payload_hash(b"c")));
    assert!(!sets.contains(b"u", payload_hash(b"b")));
}

#[test]
fn drain_without_a_client_keeps_everything() {
    let mut sets = DeliveredSets::new();
    let mut drain = Drain::start(b"u", records(&[b"a", b"b"]));
    while drain.next_offer(&sets).is_some() {
        drain.settle(&mut sets, false);
    }
    assert_eq!(drain.fresh_count(), 0);
    assert!(drain.removable().is_empty());
    assert!(sets.get(b"u").is_none());
}

// ── Command line ────────────────────────────────────────────────────

fn parse(words: &[&str]) -> Result<CliArgs, CliStop> {
    let mut raw = vec!["vurn-server".to_string()];
    raw.extend(words.iter().map(|w| w.to_string()));
    CliArgs::parse(&raw)
}

#[test]
fn command_line_defaults() {
    let want = CliArgs {
        ws_port: 9000,
        p2p_listen: "/ip4/0.0.0.0/tcp/0".to_string(),
        bootstrap_addrs: vec![],
        mode: ServerMode::Plain,
    };
    assert_eq!(parse(&[]), Ok(want));
    assert!(CliArgs::parse(&vec![]).is_ok());
}

#[test]
fn command_line_values() {
    let args = parse(&[
        "--port", "1", "--bootstrap", "x", "--cert", "c.pem", "--listen-p2p", "/ip4/1.2.3.4/tcp/1", "--key", "k.pem",
        "--bootstrap", "--help", "--port", "+0443",
    ])
    .unwrap();
    assert_eq!(args.ws_port, 443);
    assert_eq!(args.p2p_listen, "/ip4/1.2.3.4/tcp/1");
    assert_eq!(args.bootstrap_addrs, vec!["x".to_string(), "--help".to_string()]);
    let tls = ServerMode::Tls { cert_path: "c.pem".to_string(), key_path: "k.pem".to_string() };
    assert_eq!(args.mode, tls);
}

#[test]
fn command_line_stops() {
    assert_eq!(parse(&["--help", "--nonsense"]), Err(CliStop::Help));
    assert_eq!(parse(&["-h"]), Err(CliStop::Help));
    assert_eq!(parse(&["--nonsense", "--help"]), Err(CliStop::Unknown("--nonsense".to_string())));
    assert_eq!(parse(&["--port"]), Err(CliStop::BadValue("--port requires a value")));
    assert_eq!(parse(&["--listen-p2p"]), Err(CliStop::BadValue("--listen-p2p requires an address")));
    assert_eq!(parse(&["--bootstrap"]), Err(CliStop::BadValue("--bootstrap requires a multiaddr")));
    assert_eq!(parse(&["--cert"]), Err(CliStop::BadValue("--cert requires a path")));
    assert_eq!(parse(&["--key"]), Err(CliStop::BadValue("--key requires a path")));
    assert_eq!(parse(&["--cert", "c"]), Err(CliStop::Unpaired));
    assert_eq!(parse(&["--key", "k"]), Err(CliStop::Unpaired));
}

#[test]
fn ports_are_numbers_of_16_bits() {
    for bad in ["", "+", "-1", "65536", "99999999999999999999", "1a", " 1", "++1"] {
        assert_eq!(parse(&["--port", bad]), Err(CliStop::BadValue("--port must be a number")));
        assert!(bad.parse::<u16>().is_err());
    }
    for good in ["0", "65535", "+7", "0000000000000000000080"] {
        assert_eq!(parse(&["--port", good]).unwrap().ws_port, good.parse::<u16>().unwrap());
    }
}
