//! What a session keeps and refuses.

use vurnchat::bootstrap::{initiator_bootstrap, responder_bootstrap};
use vurnchat::identity::{
    build_identity_bundle, bundle_with_prekey, rotate_signed_prekey, BlindProfileManager, IdentityBundle,
};
use vurnchat::ratchet::session::FreshKeys;
use vurnchat::ratchet::store::SkippedKeys;
use vurnchat::ratchet::{
    kem_encapsulate, kem_keypair, package_sender_key, x25519_keypair, DecryptError, Session, SessionStart, MAX_SKIP,
};
use vurnchat::signing::{generate_signing_keypair, sign_message, sign_raw, verify_raw, VerifyStatus};
use vurnchat::VurnCipher;

fn pair() -> (Session, Session) {
    let (ek, ek_sk) = x25519_keypair();
    let (spk, spk_sk) = x25519_keypair();
    let alice = Session::start_alice(SessionStart {
        root: [1; 32],
        session_id: [2; 32],
        our_dh: (ek, ek_sk),
        peer_dh: Some(spk),
        our_kem: Some(kem_keypair()),
    });
    let bob = Session::start_bob(SessionStart {
        root: [1; 32],
        session_id: [2; 32],
        our_dh: (spk, spk_sk),
        peer_dh: None,
        our_kem: None,
    });
    (alice, bob)
}

/// One message each way, so that both sides have both chains and KEM keys.
fn acquainted() -> (Session, Session) {
    let (mut alice, mut bob) = pair();
    let m = alice.encrypt(b"hello").unwrap();
    assert_eq!(bob.decrypt(&m).unwrap(), b"hello");
    let r = bob.encrypt(b"hello back").unwrap();
    assert_eq!(alice.decrypt(&r).unwrap(), b"hello back");
    (alice, bob)
}

#[test]
fn responder_cannot_send_first() {
    let (_, mut bob) = pair();
    let before = bob.to_bytes();
    assert_eq!(bob.encrypt(b"too early"), Err(DecryptError::NoState));
    assert_eq!(bob.to_bytes(), before);
}

#[test]
fn initiator_has_no_receiving_chain_for_the_prekey() {
    let (mut alice, _) = pair();
    // A message under the prekey itself, on which no chain was ever opened.
    let mut package = vec![0u8; 58];
    package[0] = 0x0A;
    package[1] = 0x01;
    package[10..42].copy_from_slice(&alice.dh_r.unwrap());
    assert_eq!(alice.decrypt(&package), Err(DecryptError::NoState));
}

#[test]
fn no_message_changes_nothing() {
    let (mut alice, mut bob) = acquainted();
    let before = bob.to_bytes();
    assert_eq!(bob.decrypt(b"short"), Err(DecryptError::Malformed));
    assert_eq!(bob.to_bytes(), before);
    let m = alice.encrypt(b"fine").unwrap();
    assert_eq!(bob.decrypt(&m).unwrap(), b"fine");
}

#[test]
fn refused_messages_change_nothing() {
    let (mut alice, mut bob) = acquainted();
    let m = alice.encrypt(b"once").unwrap();
    assert_eq!(bob.decrypt(&m).unwrap(), b"once");
    let before = bob.to_bytes();
    assert_eq!(bob.decrypt(&m), Err(DecryptError::OutOfOrder));
    assert_eq!(bob.to_bytes(), before);
    // A turn that counts fewer messages of the last chain than were received.
    let mut stale = m.clone();
    stale[2..6].copy_from_slice(&0u32.to_le_bytes());
    stale[10] ^= 0x55;
    assert_eq!(bob.decrypt(&stale), Err(DecryptError::OutOfOrder));
    assert_eq!(bob.to_bytes(), before);
}

#[test]
fn gap_at_the_start_of_a_new_chain_is_bridged() {
    let (mut alice, mut bob) = acquainted();
    // Alice opens a new chain; its first two messages are late.
    let late0 = alice.encrypt(b"late 0").unwrap();
    let late1 = alice.encrypt(b"late 1").unwrap();
    let first = alice.encrypt(b"on time").unwrap();
    assert_eq!(bob.decrypt(&first).unwrap(), b"on time");
    assert_eq!(bob.skipped.len(), 2);
    assert_eq!(bob.decrypt(&late1).unwrap(), b"late 1");
    assert_eq!(bob.decrypt(&late0).unwrap(), b"late 0");
    assert!(bob.skipped.is_empty());
    assert_eq!(bob.decrypt(&late0), Err(DecryptError::OutOfOrder));
}

#[test]
fn too_wide_a_gap_on_a_new_chain_is_refused_whole() {
    let (mut alice, mut bob) = acquainted();
    let m = alice.encrypt(b"x").unwrap();
    let mut far = m.clone();
    far[6..10].copy_from_slice(&(MAX_SKIP + 1).to_le_bytes());
    let before = bob.to_bytes();
    assert_eq!(bob.decrypt(&far), Err(DecryptError::OutOfOrder));
    assert_eq!(bob.to_bytes(), before);
    assert_eq!(bob.decrypt(&m).unwrap(), b"x");
}

#[test]
fn first_message_to_a_responder_may_be_missing() {
    let (mut alice, mut bob) = pair();
    let m0 = alice.encrypt(b"zero").unwrap();
    let m1 = alice.encrypt(b"one").unwrap();
    assert_eq!(bob.decrypt(&m1).unwrap(), b"one");
    assert_eq!(bob.skipped.len(), 1);
    assert_eq!(bob.decrypt(&m0).unwrap(), b"zero");
}

#[test]
fn skipping_by_hand_retains_keys() {
    let (mut alice, mut bob) = acquainted();
    let m0 = alice.encrypt(b"zero").unwrap();
    assert_eq!(bob.decrypt(&m0).unwrap(), b"zero");
    let m1 = alice.encrypt(b"one").unwrap();
    assert_eq!(bob.skip_to(3), Ok(()));
    assert_eq!((bob.n_r, bob.skipped.len()), (3, 2));
    assert_eq!(bob.skip_to(2), Ok(()));
    assert_eq!(bob.n_r, 3);
    assert_eq!(bob.skip_to(4 + MAX_SKIP), Err(DecryptError::OutOfOrder));
    assert_eq!((bob.n_r, bob.skipped.len()), (3, 2));
    assert_eq!(bob.decrypt(&m1).unwrap(), b"one");
}

#[test]
fn at_most_two_kem_keys_are_advertised() {
    let (mut alice, mut bob) = acquainted();
    for _ in 0..4 {
        let m = alice.encrypt(b"a").unwrap();
        bob.decrypt(&m).unwrap();
        let r = bob.encrypt(b"b").unwrap();
        alice.decrypt(&r).unwrap();
        assert_eq!(alice.kem_advertised.len(), 2);
        assert_eq!(bob.kem_advertised.len(), 2);
    }
}

#[test]
fn sending_with_given_keys_is_determined() {
    let (alice, mut bob) = acquainted();
    let dh = x25519_keypair();
    let kem = kem_keypair();
    let encaps = kem_encapsulate(alice.kem_peer.as_ref().unwrap()).unwrap();
    let fresh = || FreshKeys { dh: Some(dh), kem: Some(kem.clone()), encaps: Some(encaps.clone()) };
    let (mut a, mut b) = (alice.clone(), alice.clone());
    let p = a.encrypt_with(fresh(), b"same").unwrap();
    assert_eq!(p, b.encrypt_with(fresh(), b"same").unwrap());
    assert_eq!(a.to_bytes(), b.to_bytes());
    assert_eq!(a.dh_s, dh);
    assert_eq!(a.kem_advertised[0].pk, kem.0);
    assert_eq!(bob.decrypt(&p).unwrap(), b"same");
}

#[test]
fn peer_kem_key_of_a_wrong_length_stops_sending() {
    let (mut alice, _) = acquainted();
    alice.kem_peer = Some(vec![1, 2, 3]);
    assert_eq!(alice.encrypt(b"x"), Err(DecryptError::Malformed));
}

#[test]
fn wrong_session_fails_authentication() {
    let (mut alice, mut bob) = acquainted();
    let m = alice.encrypt(b"x").unwrap();
    bob.decrypt(&m).unwrap();
    bob.session_id = [9; 32];
    let m = alice.encrypt(b"x").unwrap();
    assert_eq!(bob.decrypt(&m), Err(DecryptError::AuthFailed));
}

#[test]
fn replay_from_an_earlier_chain_is_refused() {
    let (mut alice, mut bob) = pair();
    for text in [&b"a0"[..], &b"a1"[..], &b"a2"[..]] {
        let m = alice.encrypt(text).unwrap();
        assert_eq!(bob.decrypt(&m).unwrap(), text);
    }
    let r = bob.encrypt(b"r0").unwrap();
    alice.decrypt(&r).unwrap();
    let c0 = alice.encrypt(b"c0").unwrap();
    assert_eq!(c0[2..6], 3u32.to_le_bytes());
    assert_eq!(bob.decrypt(&c0).unwrap(), b"c0");
    let r = bob.encrypt(b"r1").unwrap();
    alice.decrypt(&r).unwrap();
    let e0 = alice.encrypt(b"e0").unwrap();
    assert_eq!(e0[2..6], 1u32.to_le_bytes());
    assert_eq!(bob.decrypt(&e0).unwrap(), b"e0");
    let before = bob.to_bytes();
    assert_eq!(bob.decrypt(&c0), Err(DecryptError::OutOfOrder));
    assert_eq!(bob.to_bytes(), before);
    let e1 = alice.encrypt(b"e1").unwrap();
    assert_eq!(bob.decrypt(&e1).unwrap(), b"e1");
    assert_eq!(bob.decrypt(&c0), Err(DecryptError::OutOfOrder));
    // So it is after the session was saved and restored.
    let mut bob = Session::from_bytes(&bob.to_bytes()).unwrap();
    assert_eq!(bob.decrypt(&c0), Err(DecryptError::OutOfOrder));
    let e2 = alice.encrypt(b"e2").unwrap();
    assert_eq!(bob.decrypt(&e2).unwrap(), b"e2");
}

#[test]
fn straggler_of_an_earlier_chain_is_decrypted_once() {
    let (mut alice, mut bob) = acquainted();
    let late = alice.encrypt(b"late").unwrap();
    let m = alice.encrypt(b"m").unwrap();
    bob.decrypt(&m).unwrap();
    let r = bob.encrypt(b"r").unwrap();
    alice.decrypt(&r).unwrap();
    let n = alice.encrypt(b"n").unwrap();
    bob.decrypt(&n).unwrap();
    assert_eq!(bob.decrypt(&late).unwrap(), b"late");
    assert_eq!(bob.decrypt(&late), Err(DecryptError::OutOfOrder));
    let o = alice.encrypt(b"o").unwrap();
    assert_eq!(bob.decrypt(&o).unwrap(), b"o");
}

#[test]
fn forged_turn_changes_nothing() {
    let (mut alice, mut bob) = acquainted();
    let m = alice.encrypt(b"first of a new chain").unwrap();
    let mut forged = m.clone();
    let last = forged.len() - 1;
    forged[last] ^= 1;
    let before = bob.to_bytes();
    assert_eq!(bob.decrypt(&forged), Err(DecryptError::OutOfOrder));
    assert_eq!(bob.to_bytes(), before);
    assert_eq!(bob.decrypt(&m).unwrap(), b"first of a new chain");
}

#[test]
fn initial_kem_key_travels_in_the_first_message() {
    let mut s = Session::start_alice(SessionStart {
        root: [1; 32],
        session_id: [2; 32],
        our_dh: ([3; 32], [4; 32]),
        peer_dh: Some([9; 32]),
        our_kem: Some((vec![7; 1568], vec![8; 3168])),
    });
    let first = s.encrypt(b"hi").unwrap();
    assert_ne!(first[1] & 0x02, 0);
    assert_eq!(first[42..1610], [7u8; 1568]);
    assert_eq!(s.kem_advertised.len(), 1);
    assert_eq!(s.kem_advertised[0].pk, vec![7; 1568]);
    let second = s.encrypt(b"hi").unwrap();
    assert_eq!(second[1] & 0x02, 0);
    assert_eq!(package_sender_key(&first), Some([3; 32]));
    assert_eq!(package_sender_key(&second), Some([3; 32]));
}

#[test]
fn first_message_without_an_initial_key_advertises_a_fresh_one() {
    let mut s = Session::start_alice(SessionStart {
        root: [1; 32],
        session_id: [2; 32],
        our_dh: ([3; 32], [4; 32]),
        peer_dh: Some([9; 32]),
        our_kem: None,
    });
    let first = s.encrypt(b"hi").unwrap();
    assert_eq!(&first[42..1610], &s.kem_advertised[0].pk[..]);
    assert_eq!(s.kem_advertised.len(), 1);
}

#[test]
fn initial_kem_key_of_a_wrong_length_gives_way_to_a_fresh_one() {
    for (len, reload) in [(0, false), (1, false), (1567, false), (1569, false), (1, true)] {
        let (ek, ek_sk) = x25519_keypair();
        let (spk, spk_sk) = x25519_keypair();
        let mut alice = Session::start_alice(SessionStart {
            root: [1; 32],
            session_id: [2; 32],
            our_dh: (ek, ek_sk),
            peer_dh: Some(spk),
            our_kem: Some((vec![7; len], vec![8])),
        });
        let mut bob = Session::start_bob(SessionStart {
            root: [1; 32],
            session_id: [2; 32],
            our_dh: (spk, spk_sk),
            peer_dh: None,
            our_kem: None,
        });
        if reload {
            alice = Session::from_bytes(&alice.to_bytes()).unwrap_or_else(|e| panic!("{:?}", e));
        }
        let m = alice.encrypt(b"hi").unwrap();
        assert_eq!(m[..2], [0x0A, 0x03]);
        assert_eq!(m.len(), 42 + 1568 + 2 + 16);
        assert_eq!(package_sender_key(&m), Some(ek));
        assert_eq!(alice.kem_advertised.len(), 2);
        assert_eq!(&m[42..1610], &alice.kem_advertised[0].pk[..]);
        assert_eq!(alice.kem_advertised[1].pk, vec![7; len]);
        assert_eq!(bob.decrypt(&m).unwrap(), b"hi");
        let r = bob.encrypt(b"hi back").unwrap();
        assert_ne!(r[1] & 0x04, 0);
        assert_eq!(alice.decrypt(&r).unwrap(), b"hi back");
    }
}

#[test]
fn numbers_of_a_session_never_repeat() {
    let (mut alice, mut bob) = pair();
    let mut seen: Vec<Vec<u8>> = Vec::new();
    for _ in 0..3 {
        for _ in 0..2 {
            let m = alice.encrypt(b"same").unwrap();
            let id = m[6..42].to_vec();
            assert!(!seen.contains(&id));
            seen.push(id);
            bob.decrypt(&m).unwrap();
        }
        let r = bob.encrypt(b"r").unwrap();
        alice.decrypt(&r).unwrap();
    }
}

#[test]
fn responder_derives_the_initiators_chain() {
    let (alice, mut bob) = pair();
    let before = bob.clone();
    assert_eq!(bob.derive_initial_receive_chain(alice.dh_s.0), Ok(()));
    assert_eq!((bob.rk, bob.ck_r, bob.dh_r), (alice.rk, alice.ck_s, Some(alice.dh_s.0)));
    assert_eq!((bob.n_r, bob.initialized), (0, true));
    assert_eq!((bob.dh_s, bob.ck_s, bob.n_s, bob.pn), (before.dh_s, before.ck_s, before.n_s, before.pn));
    assert_eq!(bob.kem_advertised[0].sk, before.kem_advertised[0].sk);
    assert!(bob.skipped.is_empty());
}

#[test]
fn cut_or_mislabelled_sessions_are_refused() {
    let (mut alice, mut bob) = acquainted();
    let _late = alice.encrypt(b"late").unwrap();
    let m = alice.encrypt(b"m").unwrap();
    bob.decrypt(&m).unwrap();
    let bytes = bob.to_bytes();
    for k in 0..bytes.len() {
        assert!(Session::from_bytes(&bytes[..k]).is_err());
    }
    for v in 0..=255u8 {
        let mut other = bytes.clone();
        other[0] = v;
        assert_eq!(Session::from_bytes(&other).is_ok(), v == 0x0A || v == 0x0B);
    }
}

#[test]
fn lengths_of_what_is_made() {
    let (pk, _) = VurnCipher::generate_keypair();
    assert_eq!(VurnCipher::encrypt(&pk, b"12345").unwrap().len(), 2 + 1568 + 12 + 5 + 16);
    let (_, sk) = generate_signing_keypair();
    assert_eq!(sign_message(&sk, b"12345").unwrap().len(), 2 + 4627 + 5);
    let (_, blob) = BlindProfileManager::prepare_registration("u", &[1; 3], &[2; 4]).unwrap();
    assert_eq!(blob.len(), 12 + 4 + 7 + 16);
    assert!(BlindProfileManager::resolve_profile("u", &blob[..27]).is_err());
    let (bundle, _, _, _, _) = identity();
    let (_, blob) = BlindProfileManager::prepare_registration_v9("u", &bundle).unwrap();
    assert_eq!(blob.len(), 12 + 10420 + 16);
}

#[test]
fn saved_session_is_restored_whole() {
    let (mut alice, mut bob) = acquainted();
    let _late = alice.encrypt(b"late").unwrap();
    let m = alice.encrypt(b"m").unwrap();
    bob.decrypt(&m).unwrap();
    let bytes = bob.to_bytes();
    assert_eq!(bytes[0], 0x0B);
    let restored = Session::from_bytes(&bytes).unwrap();
    assert_eq!(restored.to_bytes(), bytes);
    assert_eq!(restored.skipped.len(), 1);
    // Bytes behind the last field are ignored.
    let mut longer = bytes.clone();
    longer.extend_from_slice(&[1, 2, 3]);
    assert_eq!(Session::from_bytes(&longer).unwrap().to_bytes(), bytes);
}

#[test]
fn older_sessions_are_restored_without_a_store() {
    let (_, bob) = acquainted();
    let mut bytes = bob.to_bytes();
    bytes.truncate(bytes.len() - 4);
    bytes[0] = 0x0A;
    let restored = Session::from_bytes(&bytes).unwrap();
    assert!(restored.skipped.is_empty());
    assert_eq!(restored.to_bytes(), bob.to_bytes());
}

#[test]
fn restoring_says_what_is_wrong() {
    let (_, bob) = acquainted();
    let bytes = bob.to_bytes();
    let fault = |d: &[u8]| Session::from_bytes(d).err().unwrap();
    assert_eq!(fault(&[]), "session bytes truncated");
    assert_eq!(fault(&[0x0C]), "unsupported session version 12");
    assert_eq!(fault(&bytes[..100]), "session bytes truncated");
    assert_eq!(fault(&bytes[..bytes.len() - 1]), "session bytes truncated");
    let mut many = bytes.clone();
    let at = many.len() - 4;
    many[at..].copy_from_slice(&2001u32.to_le_bytes());
    assert_eq!(fault(&many), "session skipped-key count out of bounds");
}

#[test]
fn store_of_keys_is_a_map() {
    let mut store = SkippedKeys::new();
    store.insert([2; 32], 1, [10; 32]);
    store.insert([1; 32], 7, [11; 32]);
    store.insert([2; 32], 0, [12; 32]);
    store.insert([2; 32], 1, [13; 32]);
    assert_eq!(store.len(), 3);
    assert_eq!(store.get(&[2; 32], 1), Some([13; 32]));
    assert_eq!(store.get(&[3; 32], 1), None);
    assert_eq!(store.entry_at(0), ([1; 32], 7, [11; 32]));
    assert_eq!(store.entry_at(1), ([2; 32], 0, [12; 32]));
    store.remove(&[2; 32], 1);
    store.remove(&[2; 32], 9);
    assert_eq!(store.len(), 2);
    assert_eq!(store.clone().get(&[2; 32], 0), Some([12; 32]));
}

#[test]
fn signatures_say_what_is_wrong() {
    let (pk, sk) = generate_signing_keypair();
    let sig = sign_raw(&sk, b"data").unwrap();
    assert_eq!(verify_raw(&pk, b"data", &sig), Ok(()));
    assert_eq!(verify_raw(&[], b"data", &sig), Err(VerifyStatus::NoKey));
    assert_eq!(verify_raw(&pk[1..], b"data", &sig), Err(VerifyStatus::BadPublicKey));
    assert_eq!(verify_raw(&pk, b"data", &sig[1..]), Err(VerifyStatus::BadSignature));
    assert_eq!(verify_raw(&pk, b"Data", &sig), Err(VerifyStatus::BadSignature));
    assert_eq!(
        sign_raw(&[1, 2], b"data"),
        Err("Invalid signing secret key: expected 32 bytes, got 2".to_string())
    );
    let (other, _) = generate_signing_keypair();
    assert_ne!(pk, other);
}

#[test]
fn prekey_is_signed_by_the_identity() {
    let (sig_pk, sig_sk) = generate_signing_keypair();
    let (spk_kem, _) = VurnCipher::generate_keypair();
    let (spk_x, _) = x25519_keypair();
    let bundle =
        bundle_with_prekey(vec![1; 1568], vec![2; 32], sig_pk.clone(), &sig_sk, spk_kem.clone(), spk_x.to_vec())
            .unwrap();
    assert_eq!(bundle.spk_kem, spk_kem);
    assert_eq!(bundle.verify_prekey(), Ok(()));
    let refused = "Invalid signing secret key: expected 32 bytes, got 1".to_string();
    assert_eq!(
        bundle_with_prekey(vec![], vec![], vec![], &[1], vec![], vec![]).err(),
        Some(refused.clone())
    );
    assert_eq!(build_identity_bundle(vec![], vec![], vec![], &[1]).err(), Some(refused.clone()));
    assert_eq!(rotate_signed_prekey(vec![], vec![], vec![], &[1]).err(), Some(refused));
}

fn identity() -> (IdentityBundle, ([u8; 32], [u8; 32]), Vec<u8>, ([u8; 32], [u8; 32]), Vec<u8>) {
    let (sig_pk, sig_sk) = generate_signing_keypair();
    let (ik_kem, ik_kem_sk) = VurnCipher::generate_keypair();
    let ik_x = x25519_keypair();
    let made = rotate_signed_prekey(ik_kem, ik_x.0.to_vec(), sig_pk, &sig_sk).unwrap_or_else(|e| panic!("{}", e));
    let mut spk_x = ([0u8; 32], [0u8; 32]);
    spk_x.0.copy_from_slice(&made.bundle.spk_x);
    spk_x.1.copy_from_slice(&made.spk_x_sk);
    (made.bundle, ik_x, ik_kem_sk, spk_x, made.spk_kem_sk)
}

#[test]
fn both_sides_reach_one_root_and_refuse_broken_bundles() {
    let (alice, a_ik, _, _, _) = identity();
    let (bob, b_ik, b_kem, b_spk, b_spk_kem) = identity();
    let ek = x25519_keypair();
    let out = initiator_bootstrap(a_ik, ek, &bob).unwrap_or_else(|e| panic!("{}", e));
    let answer = |peer: &IdentityBundle, ct: &[u8]| {
        responder_bootstrap(b_ik, b_spk, &b_kem, &b_spk_kem, peer, &ek.0, ct, &out.ct_ik)
    };
    assert_eq!(answer(&alice, &out.ct_spk), Ok((out.root, out.session_id)));
    assert_eq!(answer(&alice, &[1]), Err("kem1: Malformed".to_string()));
    for i in [0, 784, 1567] {
        let mut changed = out.ct_spk.clone();
        changed[i] ^= 1;
        assert_ne!(answer(&alice, &changed).unwrap().0, out.root);
        let mut changed = out.ct_ik.clone();
        changed[i] ^= 1;
        let other = responder_bootstrap(b_ik, b_spk, &b_kem, &b_spk_kem, &alice, &ek.0, &out.ct_spk, &changed);
        assert_ne!(other.unwrap().0, out.root);
    }
    assert_eq!(
        responder_bootstrap(b_ik, b_spk, &b_kem, &b_spk_kem, &alice, &ek.0, &out.ct_spk, &[1]),
        Err("kem2: Malformed".to_string())
    );

    let mut bare = alice.clone();
    bare.spk_sig = vec![];
    assert_eq!(answer(&bare, &out.ct_spk), Err("sender identity has no signed prekey".to_string()));
    assert_eq!(
        initiator_bootstrap(a_ik, ek, &bare).err(),
        Some("peer identity has no signed prekey — cannot bootstrap a ratchet".to_string())
    );
    let mut forged = alice.clone();
    forged.spk_x[0] ^= 1;
    let unsigned = Some("signed prekey signature does not verify".to_string());
    assert_eq!(answer(&forged, &out.ct_spk).err(), unsigned);
    assert_eq!(initiator_bootstrap(a_ik, ek, &forged).err(), unsigned);
    let mut short = alice.clone();
    short.ik_x = vec![1];
    assert_eq!(answer(&short, &out.ct_spk).err(), Some("expected 32-byte key".to_string()));
    assert_eq!(initiator_bootstrap(a_ik, ek, &short).err(), Some("expected 32-byte key".to_string()));
    let mut small = alice.clone();
    small.ik_kem = vec![1];
    assert_eq!(initiator_bootstrap(a_ik, ek, &small).err(), Some("kem2: Malformed".to_string()));
}

#[test]
fn prekey_kem_of_a_wrong_length_is_refused() {
    let (sig_pk, sig_sk) = generate_signing_keypair();
    let ik_x = x25519_keypair();
    let bundle =
        bundle_with_prekey(vec![1; 1568], ik_x.0.to_vec(), sig_pk, &sig_sk, vec![7], vec![8; 32]).unwrap();
    assert_eq!(
        initiator_bootstrap(ik_x, x25519_keypair(), &bundle).err(),
        Some("kem1: Malformed".to_string())
    );
}
